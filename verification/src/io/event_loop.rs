//! The event loop over a [`Context`]: it ends as soon as nothing is queued.

use vstd::prelude::*;

use crate::io::Context;
use crate::io::ContextView;
use crate::io::EventData;
use crate::io::EventFilter;
use crate::io::KEvent;
use crate::operation::IoError;
use crate::operation::Operation;
use crate::operation::UserOperation;

verus! {

/// How long a poll sleeps while nothing is queued, in milliseconds.
pub const IDLE_TIMEOUT: i32 = 60000;

/// Where an event loop stands.
#[derive(Clone, Copy, Debug, PartialEq, Eq, Structural)]
pub enum Phase {
    /// At the start of a turn.
    Turn,
    /// So many of the operations that were queued when the turn began are still to be taken,
    /// and whether one of those taken was a poll.
    Drain(usize, bool),
    /// A poll has been asked for.
    Wait,
    /// Before the next event of the poll, if there is one, and whether some callback still
    /// waits for a descriptor of the events before it.
    Events(bool),
    /// The callback of the current event has been run.
    Called(bool),
    /// The loop is over.
    Stopped,
}

/// What the driver of a loop has to do before the next step.
#[derive(Debug)]
pub enum Step<T> {
    /// Nothing.
    Idle,
    /// Run this operation.
    Call(UserOperation<T>),
    /// Poll for at most so many milliseconds and hand in the outcome.
    Wait(i32),
    /// Stop: there are no more steps.
    Stop,
}

/// An event loop.
#[derive(Debug)]
pub struct EventLoop {
    pub phase: Phase,
    pub events: Vec<KEvent>,
    pub next: usize,
}

/// What an [`EventLoop`] holds.
#[verifier::ext_equal]
pub struct LoopView {
    pub phase: Phase,
    pub events: Seq<KEvent>,
    pub next: int,
}

impl View for EventLoop {
    type V = LoopView;

    open spec fn view(&self) -> LoopView {
        LoopView { phase: self.phase, events: self.events@, next: self.next as int }
    }
}

/// The descriptor that an event is about.
pub open spec fn event_fd(event: KEvent) -> i32 {
    event.ident as i32
}

/// The step that runs a callback, where there is one.
pub open spec fn call<T>(op: Option<UserOperation<T>>) -> Step<T> {
    match op {
        Some(op) => Step::Call(op),
        None => Step::Idle,
    }
}

/// The callback that an event takes from the entry of its descriptor.
pub open spec fn due<T>(filter: EventFilter, entry: EventData<T>) -> Option<UserOperation<T>> {
    match filter {
        EventFilter::Read => entry.read_handler,
        EventFilter::Write => entry.write_handler,
        EventFilter::Other => None,
    }
}

/// The entry of a descriptor once an event has taken its callback.
pub open spec fn taken<T>(filter: EventFilter, entry: EventData<T>) -> EventData<T> {
    match filter {
        EventFilter::Read => EventData { read_handler: None, ..entry },
        EventFilter::Write => EventData { write_handler: None, ..entry },
        EventFilter::Other => entry,
    }
}

impl LoopView {
    /// The loop at another phase.
    pub open spec fn at(self, phase: Phase) -> Self {
        LoopView { phase, ..self }
    }

    /// An event that is being worked on is one of those that the poll gave.
    pub open spec fn wf(self) -> bool {
        &&& 0 <= self.next <= self.events.len()
        &&& self.phase is Called ==> self.next < self.events.len()
    }

    /// The descriptor whose entry the next step looks at, if it does that.
    pub open spec fn needs(self) -> Option<i32> {
        if (self.phase is Events || self.phase is Called) && self.next < self.events.len() {
            Some(event_fd(self.events[self.next]))
        } else {
            None
        }
    }

    /// One step: the loop and the context after it, and what the driver is told.
    pub open spec fn step<T>(self, ctx: ContextView<T>) -> (Self, ContextView<T>, Step<T>) {
        match self.phase {
            Phase::Turn => if ctx.queue.len() == 0 {
                (self.at(Phase::Stopped), ctx, Step::Stop)
            } else {
                (self.at(Phase::Drain(ctx.queue.len() as usize, false)), ctx, Step::Idle)
            },
            Phase::Drain(left, block) => if left > 0 && ctx.queue.len() > 0 {
                let rest = ContextView { queue: ctx.queue.skip(1), ..ctx };
                match ctx.queue[0] {
                    Operation::User(op) => (
                        self.at(Phase::Drain((left - 1) as usize, block)),
                        rest,
                        Step::Call(op),
                    ),
                    Operation::Poll => (
                        self.at(Phase::Drain((left - 1) as usize, true)),
                        rest,
                        Step::Idle,
                    ),
                }
            } else if block {
                (self.at(Phase::Wait), ctx, Step::Wait(timeout_spec(ctx)))
            } else {
                (self.at(Phase::Turn), ctx, Step::Idle)
            },
            Phase::Wait => (self, ctx, Step::Wait(timeout_spec(ctx))),
            Phase::Events(poll) => if self.next < self.events.len() {
                let event = self.events[self.next];
                let entry = ctx.descriptors[event_fd(event)];
                (
                    self.at(Phase::Called(poll)),
                    ctx.with_entry(event_fd(event), taken(event.filter, entry)),
                    call(due(event.filter, entry)),
                )
            } else if poll {
                (self.at(Phase::Turn), ctx.enqueue(Operation::Poll), Step::Idle)
            } else {
                (self.at(Phase::Turn), ctx, Step::Idle)
            },
            Phase::Called(poll) => {
                let waits = ctx.descriptors[event_fd(self.events[self.next])].waits();
                (
                    LoopView { phase: Phase::Events(poll || waits), next: self.next + 1, ..self },
                    ctx,
                    Step::Idle,
                )
            },
            Phase::Stopped => (self, ctx, Step::Stop),
        }
    }

    /// The loop once the poll that it asked for has ended in `result`.
    pub open spec fn polled(self, result: Result<Seq<KEvent>, IoError>) -> Self {
        match result {
            Ok(events) => LoopView { phase: Phase::Events(false), events, next: 0 },
            Err(_) => self.at(Phase::Stopped),
        }
    }
}

/// How long the next poll may sleep: not at all while operations are pending.
pub open spec fn timeout_spec<T>(ctx: ContextView<T>) -> i32 {
    if ctx.queue.len() == 0 {
        IDLE_TIMEOUT
    } else {
        0
    }
}

fn timeout<T>(ctx: &Context<T>) -> (r: i32)
    ensures
        r == timeout_spec(ctx@),
{
    if ctx.queue.is_empty() {
        IDLE_TIMEOUT
    } else {
        0
    }
}

impl EventLoop {
    /// A loop at the start of its first turn.
    pub fn new() -> (r: Self)
        ensures
            r@ == (LoopView { phase: Phase::Turn, events: Seq::empty(), next: 0 }),
            r@.wf(),
    {
        let r = EventLoop { phase: Phase::Turn, events: Vec::new(), next: 0 };
        assert(r.events@ =~= Seq::empty());
        r
    }

    /// The descriptor whose entry the context must hold for the next step.
    pub fn needs(&self) -> (r: Option<i32>)
        requires
            self@.wf(),
        ensures
            r == self@.needs(),
    {
        let looks = match self.phase {
            Phase::Events(_) => true,
            Phase::Called(_) => true,
            _ => false,
        };
        if looks && self.next < self.events.len() {
            Some(#[verifier::truncate] (self.events[self.next].ident as i32))
        } else {
            None
        }
    }

    /// Takes one step.
    pub fn run<T>(&mut self, ctx: &mut Context<T>) -> (r: Step<T>)
        requires
            old(self)@.wf(),
            old(self)@.needs() matches Some(fd) ==> old(ctx)@.descriptors.contains_key(fd),
        ensures
            final(self)@.wf(),
            (final(self)@, final(ctx)@, r) == old(self)@.step(old(ctx)@),
    {
        match self.phase {
            Phase::Turn => {
                let size = ctx.queue.len();
                if size == 0 {
                    self.phase = Phase::Stopped;
                    Step::Stop
                } else {
                    self.phase = Phase::Drain(size, false);
                    Step::Idle
                }
            },
            Phase::Drain(left, block) => {
                if left > 0 {
                    match ctx.queue.pop_front() {
                        Some(Operation::User(op)) => {
                            self.phase = Phase::Drain(left - 1, block);
                            return Step::Call(op);
                        },
                        Some(Operation::Poll) => {
                            self.phase = Phase::Drain(left - 1, true);
                            return Step::Idle;
                        },
                        None => {},
                    }
                }
                if block {
                    self.phase = Phase::Wait;
                    Step::Wait(timeout(ctx))
                } else {
                    self.phase = Phase::Turn;
                    Step::Idle
                }
            },
            Phase::Wait => Step::Wait(timeout(ctx)),
            Phase::Events(poll) => {
                if self.next < self.events.len() {
                    let event = self.events[self.next];
                    let fd: i32 = #[verifier::truncate] (event.ident as i32);
                    self.phase = Phase::Called(poll);
                    let entry = ctx.descriptors.get_mut(&fd).unwrap();
                    match event.filter {
                        EventFilter::Write => match entry.write_handler.take() {
                            Some(op) => Step::Call(op),
                            None => Step::Idle,
                        },
                        EventFilter::Read => match entry.read_handler.take() {
                            Some(op) => Step::Call(op),
                            None => Step::Idle,
                        },
                        EventFilter::Other => Step::Idle,
                    }
                } else {
                    if poll {
                        ctx.queue.push_back(Operation::Poll);
                    }
                    self.phase = Phase::Turn;
                    Step::Idle
                }
            },
            Phase::Called(poll) => {
                let fd: i32 = #[verifier::truncate] (self.events[self.next].ident as i32);
                let entry = ctx.descriptors.get_mut(&fd).unwrap();
                let waits = entry.write_handler.is_some() || entry.read_handler.is_some();
                assert(self.next < self.events.len());
                self.phase = Phase::Events(poll || waits);
                self.next = self.next + 1;
                Step::Idle
            },
            Phase::Stopped => Step::Stop,
        }
    }

    /// Hands in the outcome of the poll that the last step asked for.
    pub fn polled(&mut self, result: Result<Vec<KEvent>, IoError>)
        requires
            old(self)@.wf(),
            old(self)@.phase is Wait,
        ensures
            final(self)@.wf(),
            final(self)@ == old(self)@.polled(
                match result {
                    Ok(events) => Ok(events@),
                    Err(err) => Err(err),
                },
            ),
    {
        match result {
            Ok(events) => {
                self.events = events;
                self.next = 0;
                self.phase = Phase::Events(false);
            },
            Err(_) => {
                self.phase = Phase::Stopped;
            },
        }
    }
}

/// Whether a poll is among some operations.
pub open spec fn has_poll<T>(ops: Seq<Operation<T>>) -> bool {
    exists|i: int| 0 <= i < ops.len() && #[trigger] ops[i] is Poll
}

/// The loop and the context after as many steps as `pushes` has items, with the operations
/// that the steps took off the queue. After each step the user code that it ran may have
/// queued operations of its own: the items of `pushes`.
pub open spec fn drained<T>(
    l: LoopView,
    ctx: ContextView<T>,
    pushes: Seq<Seq<Operation<T>>>,
) -> (LoopView, ContextView<T>, Seq<Operation<T>>)
    decreases pushes.len(),
{
    if pushes.len() == 0 {
        (l, ctx, Seq::empty())
    } else {
        let (l1, ctx1, step) = l.step(ctx);
        let ctx2 = ContextView { queue: ctx1.queue + pushes[0], ..ctx1 };
        let (l3, ctx3, rest) = drained(l1, ctx2, pushes.skip(1));
        (l3, ctx3, seq![ctx.queue[0]] + rest)
    }
}

proof fn lemma_drained<T>(
    l: LoopView,
    ctx: ContextView<T>,
    block: bool,
    pending: Seq<Operation<T>>,
    added: Seq<Operation<T>>,
    pushes: Seq<Seq<Operation<T>>>,
)
    requires
        l.phase == Phase::Drain(pending.len() as usize, block),
        pending.len() <= usize::MAX,
        ctx.queue == pending + added,
        pushes.len() == pending.len(),
    ensures
        ({
            let (l1, ctx1, all) = drained(l, ctx, pushes);
            &&& l1 == l.at(Phase::Drain(0, block || has_poll(pending)))
            &&& all == pending
            &&& ctx1.queue == added + pushes.flatten()
        }),
    decreases pushes.len(),
{
    if pushes.len() == 0 {
        assert(pending =~= Seq::empty());
        assert(pushes.flatten() =~= Seq::empty());
        assert(ctx.queue =~= added + pushes.flatten());
    } else {
        let (l1, ctx1, step) = l.step(ctx);
        let ctx2 = ContextView { queue: ctx1.queue + pushes[0], ..ctx1 };
        let rest = pending.skip(1);
        assert(ctx1.queue =~= rest + added);
        assert(ctx2.queue =~= rest + (added + pushes[0]));
        let polled = block || pending[0] is Poll;
        lemma_drained(l1, ctx2, polled, rest, added + pushes[0], pushes.skip(1));
        assert(pushes.flatten() =~= pushes[0] + pushes.skip(1).flatten()) by {
            assert(pushes.drop_first() =~= pushes.skip(1));
            assert(pushes.first() == pushes[0]);
        }
        assert(seq![ctx.queue[0]] + rest =~= pending);
        assert((added + pushes[0]) + pushes.skip(1).flatten() =~= added + pushes.flatten());
        assert(has_poll(pending) == (pending[0] is Poll || has_poll(rest))) by {
            if has_poll(pending) {
                let i = choose|i: int| 0 <= i < pending.len() && #[trigger] pending[i] is Poll;
                if i > 0 {
                    assert(rest[i - 1] is Poll);
                }
            }
            if has_poll(rest) {
                let i = choose|i: int| 0 <= i < rest.len() && #[trigger] rest[i] is Poll;
                assert(pending[i + 1] is Poll);
            }
        }
    }
}

/// A turn takes exactly the operations that were queued when it began, in the order in which
/// they were queued. What the user code that it runs queues meanwhile is left, in order, for
/// the next turn. The turn ends with a poll if, and only if, one of those it took was a poll.
pub proof fn law_turn_takes_what_was_queued<T>(
    l: LoopView,
    ctx: ContextView<T>,
    pushes: Seq<Seq<Operation<T>>>,
)
    requires
        l.phase is Turn,
        0 < ctx.queue.len() <= usize::MAX,
        pushes.len() == ctx.queue.len(),
    ensures
        ({
            let (l1, ctx1, _) = l.step(ctx);
            let (l2, ctx2, all) = drained(l1, ctx1, pushes);
            let (l3, ctx3, step) = l2.step(ctx2);
            &&& all == ctx.queue
            &&& ctx2.queue == pushes.flatten()
            &&& ctx3 == ctx2
            &&& if has_poll(ctx.queue) {
                step == Step::<T>::Wait(
                    if pushes.flatten().len() > 0 {
                        0
                    } else {
                        IDLE_TIMEOUT
                    },
                )
            } else {
                step is Idle && l3.phase is Turn
            }
        }),
{
    let (l1, ctx1, _) = l.step(ctx);
    assert(ctx1.queue =~= ctx.queue + Seq::empty());
    lemma_drained(l1, ctx1, false, ctx.queue, Seq::empty(), pushes);
    assert(Seq::empty() + pushes.flatten() =~= pushes.flatten());
}

/// At the start of a turn the loop stops if, and only if, nothing is queued.
pub proof fn law_stops_when_nothing_is_queued<T>(l: LoopView, ctx: ContextView<T>)
    requires
        l.phase is Turn,
    ensures
        l.step(ctx).2 is Stop <==> ctx.queue.len() == 0,
        l.step(ctx).1 == ctx,
{
}

/// An event runs the callback that waits for it, if there is one, and takes it out of the
/// context: it runs once. If then, whatever the callback did, some callback still waits for
/// the same descriptor, the loop remembers that it has to poll again.
pub proof fn law_event_runs_its_callback<T>(
    l: LoopView,
    ctx: ContextView<T>,
    after: ContextView<T>,
    poll: bool,
)
    requires
        l.wf(),
        l.phase == Phase::Events(poll),
        l.needs() is Some,
    ensures
        ({
            let fd = l.needs()->0;
            let event = l.events[l.next];
            let (l1, ctx1, step) = l.step(ctx);
            let (l2, ctx2, idle) = l1.step(after);
            &&& step == call(due(event.filter, ctx.descriptors[fd]))
            &&& due(event.filter, ctx1.descriptors[fd]) is None
            &&& ctx2 == after
            &&& idle is Idle
            &&& l2 == (LoopView {
                phase: Phase::Events(poll || after.descriptors[fd].waits()),
                next: l.next + 1,
                ..l
            })
        }),
{
}

/// If a callback waited for one of the descriptors of a poll, the next turn does not stop: a
/// poll is queued behind all other operations.
pub proof fn law_waiting_callback_is_polled_for<T>(l: LoopView, ctx: ContextView<T>)
    requires
        l.phase == Phase::Events(true),
        l.next == l.events.len(),
    ensures
        ({
            let (l1, ctx1, _) = l.step(ctx);
            &&& l1.phase is Turn
            &&& ctx1.queue == ctx.queue.push(Operation::Poll)
            &&& !(l1.step(ctx1).2 is Stop)
        }),
{
}

/// A read that would block is not lost: as soon as an event reports that the descriptor is
/// readable, the loop has the driver start the same read again.
pub proof fn law_blocked_read_is_retried<T>(l: LoopView, ctx: ContextView<T>, fd: i32, op: T)
    requires
        l.wf(),
        l.phase is Events,
        l.needs() == Some(fd),
        l.events[l.next].filter is Read,
        ctx.descriptors.contains_key(fd),
    ensures
        ({
            let blocked = ctx.after_read(fd, Err(IoError::WouldBlock), op);
            &&& has_poll(blocked.queue)
            &&& l.step(blocked).2 == Step::Call(UserOperation::Retry(op))
        }),
{
    let blocked = ctx.after_read(fd, Err(IoError::WouldBlock), op);
    assert(blocked.queue[ctx.queue.len() as int] is Poll);
}

/// A connection attempt is polled for, and its callback runs as soon as an event reports that
/// the descriptor is writable.
pub proof fn law_connection_calls_back<T>(l: LoopView, ctx: ContextView<T>, fd: i32, callback: T)
    requires
        l.wf(),
        l.phase is Events,
        l.needs() == Some(fd),
        l.events[l.next].filter is Write,
    ensures
        ({
            let started = ctx.connecting(fd, callback);
            &&& has_poll(started.queue)
            &&& l.step(started).2 == Step::Call(UserOperation::Call(callback))
        }),
{
    let started = ctx.connecting(fd, callback);
    assert(started.queue[ctx.queue.len() as int] is Poll);
}

/// The loop and the context after the events of a poll, with the steps that ran their
/// callbacks. `afters` is what the callbacks have made of the context, one for each event.
pub open spec fn batch<T>(
    l: LoopView,
    ctx: ContextView<T>,
    afters: Seq<ContextView<T>>,
) -> (LoopView, ContextView<T>, Seq<Step<T>>)
    decreases afters.len(),
{
    if afters.len() == 0 {
        (l, ctx, Seq::empty())
    } else {
        let (l1, ctx1, step) = l.step(ctx);
        let (l2, ctx2, _) = l1.step(afters[0]);
        let (l3, ctx3, steps) = batch(l2, ctx2, afters.skip(1));
        (l3, ctx3, seq![step] + steps)
    }
}

/// The context that event `i` of a batch meets.
pub open spec fn met<T>(ctx: ContextView<T>, afters: Seq<ContextView<T>>, i: int) -> ContextView<
    T,
> {
    if i == 0 {
        ctx
    } else {
        afters[i - 1]
    }
}

/// Whether a callback waits for the descriptor of event `i` once that event is done.
pub open spec fn waits_after<T>(l: LoopView, afters: Seq<ContextView<T>>, i: int) -> bool {
    afters[i].descriptors[event_fd(l.events[l.next + i])].waits()
}

proof fn lemma_batch<T>(
    l: LoopView,
    ctx: ContextView<T>,
    afters: Seq<ContextView<T>>,
    poll: bool,
)
    requires
        l.wf(),
        l.phase == Phase::Events(poll),
        l.next + afters.len() <= l.events.len(),
    ensures
        ({
            let (l1, ctx1, steps) = batch(l, ctx, afters);
            &&& ctx1 == met(ctx, afters, afters.len() as int)
            &&& steps.len() == afters.len()
            &&& forall|i: int|
                0 <= i < afters.len() ==> #[trigger] steps[i] == call(
                    due(
                        l.events[l.next + i].filter,
                        met(ctx, afters, i).descriptors[event_fd(l.events[l.next + i])],
                    ),
                )
            &&& l1 == (LoopView {
                phase: Phase::Events(
                    poll || exists|i: int| 0 <= i < afters.len() && waits_after(l, afters, i),
                ),
                next: l.next + afters.len(),
                ..l
            })
        }),
    decreases afters.len(),
{
    if afters.len() > 0 {
        let (l1, ctx1, step) = l.step(ctx);
        let (l2, ctx2, _) = l1.step(afters[0]);
        let rest = afters.skip(1);
        let waits = waits_after(l, afters, 0);
        lemma_batch(l2, ctx2, rest, poll || waits);
        let (l3, ctx3, steps) = batch(l2, ctx2, rest);
        let all = seq![step] + steps;
        assert forall|i: int| 0 <= i < afters.len() implies #[trigger] all[i] == call(
            due(
                l.events[l.next + i].filter,
                met(ctx, afters, i).descriptors[event_fd(l.events[l.next + i])],
            ),
        ) by {
            if i > 0 {
                assert(all[i] == steps[i - 1]);
                assert(met(ctx2, rest, i - 1) == met(ctx, afters, i));
            }
        }
        let some = exists|i: int| 0 <= i < afters.len() && waits_after(l, afters, i);
        let later = exists|i: int| 0 <= i < rest.len() && waits_after(l2, rest, i);
        assert(some == (waits || later)) by {
            if some {
                let i = choose|i: int| 0 <= i < afters.len() && waits_after(l, afters, i);
                if i > 0 {
                    assert(waits_after(l2, rest, i - 1));
                }
            }
            if later {
                let i = choose|i: int| 0 <= i < rest.len() && waits_after(l2, rest, i);
                assert(waits_after(l, afters, i + 1));
            }
        }
    }
}

/// Each event of a poll runs the callback that waits for its side of its descriptor then, if
/// there is one. After all of them exactly one poll is queued if some descriptor still had a
/// callback right after its event, whatever the callbacks did, and none otherwise.
pub proof fn law_batch_polls_again_while_callbacks_wait<T>(
    l: LoopView,
    ctx: ContextView<T>,
    afters: Seq<ContextView<T>>,
)
    requires
        l.phase == Phase::Events(false),
        l.next == 0,
        afters.len() == l.events.len(),
    ensures
        ({
            let (l1, ctx1, steps) = batch(l, ctx, afters);
            let (l2, ctx2, _) = l1.step(ctx1);
            &&& steps.len() == l.events.len()
            &&& forall|i: int|
                0 <= i < l.events.len() ==> #[trigger] steps[i] == call(
                    due(
                        l.events[i].filter,
                        met(ctx, afters, i).descriptors[event_fd(l.events[i])],
                    ),
                )
            &&& ctx1 == met(ctx, afters, afters.len() as int)
            &&& l2.phase is Turn
            &&& ctx2 == (if exists|i: int| 0 <= i < afters.len() && waits_after(l, afters, i) {
                ctx1.enqueue(Operation::Poll)
            } else {
                ctx1
            })
        }),
{
    lemma_batch(l, ctx, afters, false);
}

/// What the driver is told by as many steps as `pushes` has items, each followed by what the
/// user code that it ran has queued.
pub open spec fn told<T>(
    l: LoopView,
    ctx: ContextView<T>,
    pushes: Seq<Seq<Operation<T>>>,
) -> Seq<Step<T>>
    decreases pushes.len(),
{
    if pushes.len() == 0 {
        Seq::empty()
    } else {
        let (l1, ctx1, step) = l.step(ctx);
        let ctx2 = ContextView { queue: ctx1.queue + pushes[0], ..ctx1 };
        seq![step] + told(l1, ctx2, pushes.skip(1))
    }
}

proof fn lemma_told<T>(
    l: LoopView,
    ctx: ContextView<T>,
    block: bool,
    pending: Seq<Operation<T>>,
    added: Seq<Operation<T>>,
    pushes: Seq<Seq<Operation<T>>>,
)
    requires
        l.phase == Phase::Drain(pending.len() as usize, block),
        pending.len() <= usize::MAX,
        ctx.queue == pending + added,
        pushes.len() == pending.len(),
    ensures
        told(l, ctx, pushes).len() == pending.len(),
        forall|i: int|
            0 <= i < pending.len() ==> #[trigger] told(l, ctx, pushes)[i] == (match pending[i] {
                Operation::User(op) => Step::Call(op),
                Operation::Poll => Step::Idle,
            }),
    decreases pushes.len(),
{
    if pushes.len() > 0 {
        let (l1, ctx1, step) = l.step(ctx);
        let ctx2 = ContextView { queue: ctx1.queue + pushes[0], ..ctx1 };
        let rest = pending.skip(1);
        assert(ctx.queue[0] == pending[0]);
        assert(ctx1.queue =~= rest + added);
        assert(ctx2.queue =~= rest + (added + pushes[0]));
        let polled = block || pending[0] is Poll;
        lemma_told(l1, ctx2, polled, rest, added + pushes[0], pushes.skip(1));
        let later = told(l1, ctx2, pushes.skip(1));
        assert forall|i: int| 0 <= i < pending.len() implies #[trigger] told(l, ctx, pushes)[i]
            == (match pending[i] {
            Operation::User(op) => Step::Call(op),
            Operation::Poll => Step::Idle,
        }) by {
            if i > 0 {
                assert(told(l, ctx, pushes)[i] == later[i - 1]);
                assert(rest[i - 1] == pending[i]);
            }
        }
    }
}

/// Everything that was queued when a turn began is run by it: for each operation, in order, the
/// driver is told to run it as it was queued, and to do nothing only for a poll, whatever the
/// user code queues meanwhile.
pub proof fn law_turn_runs_what_was_queued<T>(
    l: LoopView,
    ctx: ContextView<T>,
    pushes: Seq<Seq<Operation<T>>>,
    i: int,
)
    requires
        l.phase is Turn,
        0 < ctx.queue.len() <= usize::MAX,
        pushes.len() == ctx.queue.len(),
        0 <= i < ctx.queue.len(),
    ensures
        ({
            let (l1, ctx1, begun) = l.step(ctx);
            let steps = told(l1, ctx1, pushes);
            &&& begun is Idle
            &&& ctx1 == ctx
            &&& steps.len() == ctx.queue.len()
            &&& match ctx.queue[i] {
                Operation::User(op) => steps[i] == Step::Call(op),
                Operation::Poll => steps[i] is Idle,
            }
        }),
{
    let (l1, ctx1, begun) = l.step(ctx);
    assert(ctx1.queue =~= ctx.queue + Seq::empty());
    lemma_told(l1, ctx1, false, ctx.queue, Seq::empty(), pushes);
}

/// Taking an operation off the queue runs it, if it is one to run, and changes nothing else: the
/// other operations stay queued in their order, and so does what waits. A poll is remembered.
pub proof fn law_operation_is_taken_and_run<T>(
    l: LoopView,
    ctx: ContextView<T>,
    left: usize,
    block: bool,
)
    requires
        l.phase == Phase::Drain(left, block),
        left > 0,
        ctx.queue.len() > 0,
    ensures
        ({
            let (l1, ctx1, step) = l.step(ctx);
            &&& match ctx.queue[0] {
                Operation::User(op) => step == Step::Call(op) && l1.phase == Phase::Drain(
                    (left - 1) as usize,
                    block,
                ),
                Operation::Poll => step is Idle && l1.phase == Phase::Drain(
                    (left - 1) as usize,
                    true,
                ),
            }
            &&& seq![ctx.queue[0]] + ctx1.queue == ctx.queue
            &&& ctx1.descriptors == ctx.descriptors
            &&& ctx1.fd == ctx.fd
            &&& l1.events == l.events
            &&& l1.next == l.next
        }),
{
    let (l1, ctx1, step) = l.step(ctx);
    assert(seq![ctx.queue[0]] + ctx1.queue =~= ctx.queue);
}

/// A turn begins with all that is queued, and where nothing is, the loop is over.
pub proof fn law_turn_begins_with_all_operations<T>(l: LoopView, ctx: ContextView<T>)
    requires
        l.phase is Turn,
        ctx.queue.len() <= usize::MAX,
    ensures
        ({
            let (l1, ctx1, step) = l.step(ctx);
            &&& ctx1 == ctx
            &&& l1.events == l.events
            &&& l1.next == l.next
            &&& if ctx.queue.len() > 0 {
                &&& step is Idle
                &&& l1.phase matches Phase::Drain(left, block) && left == ctx.queue.len() && !block
            } else {
                step is Stop && l1.phase is Stopped
            }
        }),
{
}

/// A turn that has taken its operations polls if one of them was a poll: for a minute, or without
/// sleeping where something has been queued meanwhile. Otherwise the next turn begins.
pub proof fn law_turn_ends_with_a_poll_if_asked<T>(l: LoopView, ctx: ContextView<T>, block: bool)
    requires
        l.phase == Phase::Drain(0, block) || (l.phase is Drain && l.phase->Drain_1 == block
            && ctx.queue.len() == 0),
    ensures
        ({
            let (l1, ctx1, step) = l.step(ctx);
            &&& ctx1 == ctx
            &&& l1.events == l.events
            &&& l1.next == l.next
            &&& if block {
                &&& l1.phase is Wait
                &&& ctx.queue.len() > 0 ==> step == Step::<T>::Wait(0)
                &&& ctx.queue.len() == 0 ==> step == Step::<T>::Wait(60000)
            } else {
                l1.phase is Turn && step is Idle
            }
        }),
{
}

/// A loop that waits for a poll asks for it again, and one that is over stays so.
pub proof fn law_loop_waits_and_stays_over<T>(l: LoopView, ctx: ContextView<T>)
    ensures
        l.phase is Wait ==> l.step(ctx) == (
            l,
            ctx,
            Step::<T>::Wait(
                if ctx.queue.len() == 0 {
                    60000
                } else {
                    0
                },
            ),
        ),
        l.phase is Stopped ==> l.step(ctx) == (l, ctx, Step::<T>::Stop),
{
}

/// The events of a poll are worked on from the first; a poll that failed ends the loop.
pub proof fn law_poll_hands_in_its_events(l: LoopView, events: Seq<KEvent>, err: IoError)
    ensures
        l.polled(Ok(events)).events == events,
        l.polled(Ok(events)).next == 0,
        l.polled(Ok(events)).phase == Phase::Events(false),
        l.polled(Err(err)).phase is Stopped,
        l.polled(Err(err)).events == l.events,
        l.polled(Err(err)).next == l.next,
{
}

/// An event is about the descriptor that was registered with it: the low half of its identifier.
/// The next step needs the entry of the descriptor of the next event exactly while it works on
/// events.
pub proof fn law_event_is_about_its_descriptor(l: LoopView, fd: i32, event: KEvent)
    ensures
        event.ident == fd as u64 ==> event_fd(event) == fd,
        event_fd(event) == event.ident as i32,
        event_fd(event) as u32 as int == event.ident % 0x1_0000_0000,
        l.next < l.events.len() && event_fd(l.events[l.next]) == fd && (l.phase is Events
            || l.phase is Called) ==> l.needs() == Some(fd),
        l.needs() is Some ==> (l.phase is Events || l.phase is Called) && l.next < l.events.len(),
        l.wf() <==> 0 <= l.next <= l.events.len() && (l.phase is Called ==> l.next
            < l.events.len()),
{
    assert((fd as u64) as i32 == fd) by (bit_vector);
    let ident = event.ident;
    assert((ident as i32) as u32 == ident % 0x1_0000_0000) by (bit_vector);
}

/// An event that reports data to read takes the reading callback of its descriptor, one that
/// reports that data can be written takes the writing one, and any other takes none. The callback
/// that is taken is run as it waited; all else that waits stays.
pub proof fn law_event_takes_the_callback_of_its_side<T>(
    l: LoopView,
    ctx: ContextView<T>,
    poll: bool,
    fd: i32,
    other: i32,
)
    requires
        l.phase == Phase::Events(poll),
        0 <= l.next < l.events.len(),
        event_fd(l.events[l.next]) == fd,
        ctx.descriptors.contains_key(fd),
    ensures
        ({
            let (l1, ctx1, step) = l.step(ctx);
            let before = ctx.descriptors[fd];
            let after = ctx1.descriptors[fd];
            &&& match l.events[l.next].filter {
                EventFilter::Read => {
                    &&& before.read_handler matches Some(op) ==> step == Step::Call(op)
                    &&& before.read_handler is None ==> step is Idle
                    &&& after.read_handler is None
                    &&& after.write_handler == before.write_handler
                },
                EventFilter::Write => {
                    &&& before.write_handler matches Some(op) ==> step == Step::Call(op)
                    &&& before.write_handler is None ==> step is Idle
                    &&& after.write_handler is None
                    &&& after.read_handler == before.read_handler
                },
                EventFilter::Other => step is Idle && after == before,
            }
            &&& after.events == before.events
            &&& ctx1.descriptors.dom() == ctx.descriptors.dom()
            &&& other != fd ==> ctx1.descriptors[other] == ctx.descriptors[other]
            &&& ctx1.queue == ctx.queue
            &&& ctx1.fd == ctx.fd
            &&& l1.phase == Phase::Called(poll)
            &&& l1.events == l.events
            &&& l1.next == l.next
        }),
{
    assert(l.step(ctx).1.descriptors.dom() =~= ctx.descriptors.dom());
}

/// Behind the callback of an event comes the next event. A poll is needed from then on if some
/// callback waits for the descriptor, on either side, and stays needed once it is.
pub proof fn law_waiting_callback_is_noticed<T>(
    l: LoopView,
    ctx: ContextView<T>,
    poll: bool,
    fd: i32,
)
    requires
        l.phase == Phase::Called(poll),
        0 <= l.next < l.events.len(),
        event_fd(l.events[l.next]) == fd,
        ctx.descriptors.contains_key(fd),
    ensures
        ({
            let (l1, ctx1, step) = l.step(ctx);
            let entry = ctx.descriptors[fd];
            &&& step is Idle
            &&& ctx1 == ctx
            &&& l1.next == l.next + 1
            &&& l1.events == l.events
            &&& poll || entry.read_handler is Some || entry.write_handler is Some ==> l1.phase
                == Phase::Events(true)
            &&& !poll && entry.read_handler is None && entry.write_handler is None ==> l1.phase
                == Phase::Events(false)
        }),
{
}

/// Behind the last event the next turn begins, with a poll queued last if one is needed, and with
/// nothing changed otherwise.
pub proof fn law_events_end_with_a_poll_if_needed<T>(l: LoopView, ctx: ContextView<T>, poll: bool)
    requires
        l.phase == Phase::Events(poll),
        l.next == l.events.len(),
    ensures
        ({
            let (l1, ctx1, step) = l.step(ctx);
            &&& step is Idle
            &&& l1.phase is Turn
            &&& l1.events == l.events
            &&& l1.next == l.next
            &&& ctx1.descriptors == ctx.descriptors
            &&& ctx1.fd == ctx.fd
            &&& poll ==> ctx1.queue == ctx.queue.push(Operation::Poll)
            &&& !poll ==> ctx1.queue == ctx.queue
        }),
{
}

/// The view tells the fields.
pub proof fn law_view_tells_the_loop(l: EventLoop)
    ensures
        l@.phase == l.phase,
        l@.events == l.events@,
        l@.next == l.next,
{
}

} // verus!
