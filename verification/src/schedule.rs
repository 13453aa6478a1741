//! How accepted connections are handed to the worker threads.

use vstd::prelude::*;
use vstd::string::*;

use crate::operation::IoError;
use crate::text::append_decimal;
use crate::text::decimal_chars;
use crate::text::lemma_decimal_chars;
use crate::text::lemma_decimal_chars_injective;

verus! {

/// The error number of a descriptor that is not open.
pub const EBADF: i32 = 9;

/// A descriptor as it is sent over a control channel: four bytes, the least significant first.
pub open spec fn encoded(fd: i32) -> Seq<u8> {
    let n = fd as u32;
    seq![n as u8, (n >> 8u32) as u8, (n >> 16u32) as u8, (n >> 24u32) as u8]
}

/// The descriptor that four bytes stand for.
pub open spec fn decoded(b0: u8, b1: u8, b2: u8, b3: u8) -> i32 {
    ((b0 as u32) | ((b1 as u32) << 8u32) | ((b2 as u32) << 16u32) | ((b3 as u32) << 24u32)) as i32
}

/// The message that hands a descriptor to a worker.
pub fn encode(fd: i32) -> (r: [u8; 4])
    ensures
        r@ == encoded(fd),
{
    let n: u32 = #[verifier::truncate] (fd as u32);
    let r: [u8; 4] = [
        #[verifier::truncate] (n as u8),
        #[verifier::truncate] ((n >> 8u32) as u8),
        #[verifier::truncate] ((n >> 16u32) as u8),
        #[verifier::truncate] ((n >> 24u32) as u8),
    ];
    assert(r@ =~= encoded(fd));
    r
}

/// The descriptor that a worker has been handed: a read from the control channel into `buf`
/// has ended in `n`, which is no failure.
pub fn on_connection(n: Result<usize, IoError>, buf: &[u8]) -> (r: i32)
    requires
        n is Ok,
        buf@.len() >= 4,
    ensures
        r == decoded(buf@[0], buf@[1], buf@[2], buf@[3]),
{
    let bits: u32 = (buf[0] as u32) | ((buf[1] as u32) << 8u32) | ((buf[2] as u32) << 16u32) | ((
    buf[3] as u32) << 24u32);
    #[verifier::truncate] (bits as i32)
}

/// A worker gets the very descriptor that was sent to it.
pub proof fn law_descriptor_arrives(fd: i32)
    ensures
        encoded(fd).len() == 4,
        decoded(encoded(fd)[0], encoded(fd)[1], encoded(fd)[2], encoded(fd)[3]) == fd,
{
    let n = fd as u32;
    assert(((n as u8) as u32 | (((n >> 8u32) as u8) as u32) << 8u32 | (((n >> 16u32) as u8) as u32)
        << 16u32 | (((n >> 24u32) as u8) as u32) << 24u32) == n) by (bit_vector);
    assert((fd as u32) as i32 == fd) by (bit_vector);
}

/// What becomes of the outcome of an accept.
#[derive(Clone, Copy, Debug, PartialEq, Eq)]
pub enum Accepted {
    /// The connection is sent to this worker, by this message.
    Send(usize, [u8; 4]),
    /// The failure is passed over.
    Retry,
    /// No more connections are accepted.
    Stop,
}

/// What an accept comes to, with the bytes of its message.
pub enum AcceptedView {
    Send(int, Seq<u8>),
    Retry,
    Stop,
}

impl View for Accepted {
    type V = AcceptedView;

    open spec fn view(&self) -> AcceptedView {
        match *self {
            Accepted::Send(worker, message) => AcceptedView::Send(worker as int, message@),
            Accepted::Retry => AcceptedView::Retry,
            Accepted::Stop => AcceptedView::Stop,
        }
    }
}

/// Deals connections out to workers, one after the other.
#[derive(Clone, Copy, Debug, PartialEq, Eq, Structural)]
pub struct Scheduler {
    /// The worker that got the last connection.
    pub sched: usize,
    /// The number of workers.
    pub workers: usize,
}

impl Scheduler {
    /// There are workers, and the last connection went to one of them.
    pub open spec fn wf(self) -> bool {
        self.sched < self.workers
    }

    /// The worker that gets the next connection.
    pub open spec fn next_spec(self) -> int {
        (self.sched + 1) % self.workers as int
    }

    /// The scheduler after `n` more connections.
    pub open spec fn after(self, n: nat) -> Self {
        Scheduler { sched: ((self.sched + n) % self.workers as int) as usize, ..self }
    }

    /// What becomes of the outcome of an accept of a server that gives up at the first failure.
    pub open spec fn accept(self, result: Result<i32, IoError>) -> (Self, AcceptedView) {
        match result {
            Ok(fd) => (self.after(1), AcceptedView::Send(self.next_spec(), encoded(fd))),
            Err(_) => (self, AcceptedView::Stop),
        }
    }

    /// What becomes of the outcomes of some accepts in a row.
    pub open spec fn accepts(self, results: Seq<Result<i32, IoError>>) -> (
        Self,
        Seq<AcceptedView>,
    )
        decreases results.len(),
    {
        if results.len() == 0 {
            (self, Seq::empty())
        } else {
            let (before, done) = self.accepts(results.drop_last());
            let (after, last) = before.accept(results.last());
            (after, done.push(last))
        }
    }

    /// A scheduler that begins with the first of `workers` workers.
    pub fn new(workers: usize) -> (r: Self)
        requires
            workers >= 1,
        ensures
            r == (Scheduler { sched: (workers - 1) as usize, workers }),
            r.wf(),
    {
        Scheduler { sched: workers - 1, workers }
    }

    /// A scheduler that acts as if the first worker had got a connection already.
    pub fn after_first(workers: usize) -> (r: Self)
        requires
            workers >= 1,
        ensures
            r == (Scheduler { sched: 0, workers }),
            r.wf(),
    {
        Scheduler { sched: 0, workers }
    }

    /// The worker that gets the next connection.
    pub fn next(&mut self) -> (r: usize)
        requires
            old(self).wf(),
        ensures
            r == old(self).next_spec(),
            *final(self) == (Scheduler { sched: r, ..*old(self) }),
            final(self).wf(),
    {
        self.sched = if self.sched + 1 < self.workers {
            self.sched + 1
        } else {
            0
        };
        assert(self.sched == old(self).next_spec()) by {
            if old(self).sched + 1 < old(self).workers {
                vstd::arithmetic::div_mod::lemma_small_mod(
                    (old(self).sched + 1) as nat,
                    old(self).workers as nat,
                );
            } else {
                vstd::arithmetic::div_mod::lemma_mod_self_0(old(self).workers as int);
            }
        }
        self.sched
    }

    /// Settles an accept of a server that gives up at the first failure.
    pub fn on_accept(&mut self, result: Result<i32, IoError>) -> (r: Accepted)
        requires
            old(self).wf(),
        ensures
            final(self).wf(),
            (*final(self), r@) == old(self).accept(result),
    {
        match result {
            Ok(fd) => {
                let worker = self.next();
                Accepted::Send(worker, encode(fd))
            },
            Err(_) => Accepted::Stop,
        }
    }

    /// Settles an accept of a server that gives up only when its listening socket is gone.
    pub fn on_accept_or_retry(&mut self, result: Result<i32, IoError>) -> (r: Accepted)
        requires
            old(self).wf(),
        ensures
            final(self).wf(),
            match result {
                Ok(fd) => {
                    &&& r matches Accepted::Send(worker, message) && worker == old(
                        self,
                    ).next_spec() && message@ == encoded(fd)
                    &&& *final(self) == old(self).after(1)
                },
                Err(err) => *final(self) == *old(self) && r == (if err == IoError::Os(EBADF) {
                    Accepted::Stop
                } else {
                    Accepted::Retry
                }),
            },
    {
        match result {
            Ok(fd) => {
                let worker = self.next();
                Accepted::Send(worker, encode(fd))
            },
            Err(err) => match err {
                IoError::Os(errno) => if errno == EBADF {
                    Accepted::Stop
                } else {
                    Accepted::Retry
                },
                _ => Accepted::Retry,
            },
        }
    }
}

/// Connections are dealt out in turn: of those that a new scheduler sees, connection `n` goes
/// to worker `n` modulo the number of workers.
pub proof fn law_round_robin(workers: usize, n: nat)
    requires
        workers >= 1,
    ensures
        ({
            let s = Scheduler { sched: (workers - 1) as usize, workers }.after(n);
            &&& s.wf()
            &&& s.next_spec() == n % workers as nat
            &&& s.after(1) == (Scheduler { sched: (workers - 1) as usize, workers }).after(n + 1)
        }),
{
    let w = workers as int;
    let first = Scheduler { sched: (workers - 1) as usize, workers };
    let s = first.after(n);
    vstd::arithmetic::div_mod::lemma_mod_bound(w - 1 + n, w);
    vstd::arithmetic::div_mod::lemma_add_mod_noop(w - 1 + n, 1, w);
    vstd::arithmetic::div_mod::lemma_add_mod_noop((w - 1 + n) % w, 1, w);
    vstd::arithmetic::div_mod::lemma_mod_twice(w - 1 + n, w);
    assert(((w - 1 + n) % w + 1) % w == (w + n) % w);
    vstd::arithmetic::div_mod::lemma_mod_add_multiples_vanish(n as int, w);
    vstd::arithmetic::div_mod::lemma_mod_bound(w + n, w);
}

/// A server that accepts connections until it fails sends each of them to one worker, in turn,
/// and gives up then.
pub proof fn law_accepted_connections_are_sent(
    workers: usize,
    fds: Seq<i32>,
    results: Seq<Result<i32, IoError>>,
    err: IoError,
)
    requires
        workers >= 1,
        results.len() == fds.len(),
        forall|k: int| 0 <= k < fds.len() ==> #[trigger] results[k] == Ok::<i32, IoError>(fds[k]),
    ensures
        ({
            let s = Scheduler { sched: (workers - 1) as usize, workers };
            let (after, done) = s.accepts(results);
            &&& done.len() == fds.len()
            &&& forall|k: int|
                0 <= k < fds.len() ==> #[trigger] done[k] == AcceptedView::Send(
                    k % workers as int,
                    encoded(fds[k]),
                )
            &&& after == s.after(fds.len())
            &&& s.accepts(results.push(Err(err))).1 == done.push(AcceptedView::Stop)
        }),
    decreases fds.len(),
{
    let s = Scheduler { sched: (workers - 1) as usize, workers };
    assert(results.push(Err(err)).drop_last() =~= results);
    if fds.len() == 0 {
        vstd::arithmetic::div_mod::lemma_small_mod((workers - 1) as nat, workers as nat);
    } else {
        let n = (fds.len() - 1) as nat;
        law_accepted_connections_are_sent(workers, fds.drop_last(), results.drop_last(), err);
        law_round_robin(workers, n);
        assert(results.last() == Ok::<i32, IoError>(fds[n as int]));
        let done = s.accepts(results.drop_last()).1;
        assert forall|k: int| 0 <= k < fds.len() implies #[trigger] s.accepts(results).1[k]
            == AcceptedView::Send(k % workers as int, encoded(fds[k])) by {
            if k < n {
                assert(s.accepts(results).1[k] == done[k]);
                assert(fds.drop_last()[k] == fds[k]);
            }
        }
    }
}

/// Among as many connections in a row as there are workers, no two go to the same worker.
pub proof fn law_workers_take_turns(workers: usize, i: nat, j: nat)
    requires
        workers >= 1,
        i < j < i + workers,
    ensures
        ({
            let first = Scheduler { sched: (workers - 1) as usize, workers };
            first.after(i).next_spec() != first.after(j).next_spec()
        }),
{
    law_round_robin(workers, i);
    law_round_robin(workers, j);
    let w = workers as int;
    if i as int % w == j as int % w {
        vstd::arithmetic::div_mod::lemma_fundamental_div_mod(i as int, w);
        vstd::arithmetic::div_mod::lemma_fundamental_div_mod(j as int, w);
        let a = i as int / w;
        let b = j as int / w;
        assert(j - i == w * (b - a)) by (nonlinear_arith)
            requires
                i as int == w * a + i as int % w,
                j as int == w * b + j as int % w,
                i as int % w == j as int % w,
        ;
        assert(b - a <= 0 || w * (b - a) >= w) by (nonlinear_arith)
            requires
                w >= 1,
        ;
        assert(b - a > 0 || w * (b - a) <= 0) by (nonlinear_arith)
            requires
                w >= 1,
        ;
    }
}

/// The name of a worker thread: its number has at least two digits.
pub open spec fn worker_name_spec(tid: nat) -> Seq<char> {
    if tid < 10 {
        "work#0"@ + decimal_chars(tid)
    } else {
        "work#"@ + decimal_chars(tid)
    }
}

/// The name of the worker thread `tid`.
pub fn worker_name(tid: usize) -> (r: String)
    ensures
        r@ == worker_name_spec(tid as nat),
{
    let mut name = if tid < 10 {
        "work#0".to_owned()
    } else {
        "work#".to_owned()
    };
    append_decimal(&mut name, tid);
    name
}

/// Different worker threads have different names.
pub proof fn law_worker_names_differ(a: nat, b: nat)
    requires
        worker_name_spec(a) == worker_name_spec(b),
    ensures
        a == b,
{
    reveal_strlit("work#0");
    reveal_strlit("work#");
    let name = worker_name_spec(a);
    lemma_decimal_chars(a);
    lemma_decimal_chars(b);
    assert(a >= 10 ==> name[5] == decimal_chars(a)[0]);
    assert(b >= 10 ==> name[5] == decimal_chars(b)[0]);
    assert(a < 10 ==> name[5] == '0');
    assert(b < 10 ==> name[5] == '0');
    let prefix: int = if a < 10 {
        6
    } else {
        5
    };
    assert(decimal_chars(a) =~= name.skip(prefix));
    assert(decimal_chars(b) =~= name.skip(prefix));
    lemma_decimal_chars_injective(a, b);
}

/// How many of the first `n` connections that a new scheduler sees go to a worker.
pub open spec fn dealt(workers: usize, n: nat, worker: int) -> nat
    decreases n,
{
    if n == 0 {
        0
    } else {
        let s = Scheduler { sched: (workers - 1) as usize, workers }.after((n - 1) as nat);
        dealt(workers, (n - 1) as nat, worker) + if s.next_spec() == worker {
            1nat
        } else {
            0nat
        }
    }
}

/// The workers share the connections evenly: the numbers that two of them have got never
/// differ by more than one.
pub proof fn law_workers_share_evenly(workers: usize, n: nat, a: int, b: int)
    requires
        0 <= a < workers,
        0 <= b < workers,
    ensures
        dealt(workers, n, a) <= dealt(workers, n, b) + 1,
{
    lemma_dealt(workers, n, a);
    lemma_dealt(workers, n, b);
}

proof fn lemma_dealt(workers: usize, n: nat, worker: int)
    requires
        0 <= worker < workers,
    ensures
        dealt(workers, n, worker) == n / workers as nat + if worker < n % workers as nat {
            1nat
        } else {
            0nat
        },
    decreases n,
{
    let w = workers as int;
    if n > 0 {
        let m = (n - 1) as nat;
        lemma_dealt(workers, m, worker);
        law_round_robin(workers, m);
        vstd::arithmetic::div_mod::lemma_fundamental_div_mod(m as int, w);
        vstd::arithmetic::div_mod::lemma_mod_bound(m as int, w);
        let q = m as int / w;
        let r = m as int % w;
        if r + 1 < w {
            vstd::arithmetic::div_mod::lemma_fundamental_div_mod_converse(n as int, w, q, r + 1);
        } else {
            assert(n as int == (q + 1) * w + 0) by (nonlinear_arith)
                requires
                    m as int == w * q + r,
                    n as int == m + 1,
                    r + 1 == w,
            ;
            vstd::arithmetic::div_mod::lemma_fundamental_div_mod_converse(n as int, w, q + 1, 0);
        }
    } else {
        vstd::arithmetic::div_mod::lemma_small_mod(0, workers as nat);
        vstd::arithmetic::div_mod::lemma_div_basics(w);
    }
}

/// A descriptor is sent as the four digits of its bit pattern in base 256, the least significant
/// first.
pub proof fn law_descriptor_is_sent_little_endian(fd: i32)
    ensures
        encoded(fd).len() == 4,
        ({
            let n = if fd >= 0 {
                fd as int
            } else {
                fd + 0x1_0000_0000
            };
            n == encoded(fd)[0] + 0x100 * encoded(fd)[1] + 0x1_0000 * encoded(fd)[2] + 0x100_0000
                * encoded(fd)[3]
        }),
{
    let n = fd as u32;
    assert(fd >= 0 ==> n == fd) by (bit_vector)
        requires
            n == fd as u32,
    ;
    assert(fd < 0 ==> n == fd + 0x1_0000_0000) by (bit_vector)
        requires
            n == fd as u32,
    ;
    assert(n == (n as u8) + 0x100 * ((n >> 8u32) as u8) + 0x1_0000 * ((n >> 16u32) as u8)
        + 0x100_0000 * ((n >> 24u32) as u8)) by (bit_vector);
}

/// The next connection goes to the next worker, and behind the last worker to the first.
pub proof fn law_next_worker(s: Scheduler)
    requires
        s.sched < s.workers,
    ensures
        s.wf(),
        s.sched + 1 < s.workers ==> s.next_spec() == s.sched + 1,
        s.sched + 1 == s.workers ==> s.next_spec() == 0,
        s.after(1).sched == s.next_spec(),
        s.after(1).workers == s.workers,
        s.after(0) == s,
{
    if s.sched + 1 < s.workers {
        vstd::arithmetic::div_mod::lemma_small_mod((s.sched + 1) as nat, s.workers as nat);
    } else {
        vstd::arithmetic::div_mod::lemma_mod_self_0(s.workers as int);
    }
    vstd::arithmetic::div_mod::lemma_small_mod(s.sched as nat, s.workers as nat);
}

/// The view tells what an accept comes to: the worker and the bytes of the message. A descriptor
/// that is not open has the error number 9.
pub proof fn law_view_tells_the_acceptance(a: Accepted)
    ensures
        a matches Accepted::Send(worker, message) ==> a@ == AcceptedView::Send(
            worker as int,
            message@,
        ),
        a is Retry <==> a@ is Retry,
        a is Stop <==> a@ is Stop,
        EBADF == 9,
{
}

/// An accepted connection is sent to the next worker as it is encoded, whatever was sent before; a
/// failure stops the server and sends nothing.
pub proof fn law_accept_is_sent_or_stops(s: Scheduler, fd: i32, err: IoError)
    requires
        s.sched < s.workers,
    ensures
        ({
            let (after, accepted) = s.accept(Ok(fd));
            &&& accepted == AcceptedView::Send(s.next_spec(), encoded(fd))
            &&& after.sched == s.next_spec()
            &&& after.workers == s.workers
        }),
        s.accept(Err(err)) == (s, AcceptedView::Stop),
{
    law_next_worker(s);
}

/// A worker thread is named `work#` and its number, which has at least two digits.
pub proof fn law_worker_name(tid: nat)
    ensures
        worker_name_spec(tid).take(5) == "work#"@,
        tid < 10 ==> worker_name_spec(tid).len() == 7 && worker_name_spec(tid)[5] == '0'
            && worker_name_spec(tid)[6] as int == 48 + tid,
        tid >= 10 ==> worker_name_spec(tid).skip(5) == decimal_chars(tid),
{
    reveal_strlit("work#0");
    reveal_strlit("work#");
    assert(worker_name_spec(tid).take(5) =~= "work#"@);
    if tid >= 10 {
        assert(worker_name_spec(tid).skip(5) =~= decimal_chars(tid));
    }
}

} // verus!
