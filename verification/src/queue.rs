//! A queue of things to do, first in, first out.

use std::collections::VecDeque;

use vstd::prelude::*;

verus! {

/// A queue.
#[derive(Debug)]
pub struct Queue<O> {
    pub queue: VecDeque<O>,
}

impl<O> View for Queue<O> {
    type V = Seq<O>;

    open spec fn view(&self) -> Seq<O> {
        self.queue@
    }
}

impl<O> Queue<O> {
    /// Nothing to do.
    pub fn new() -> (r: Self)
        ensures
            r@ == Seq::<O>::empty(),
    {
        Queue { queue: VecDeque::new() }
    }

    /// Adds an operation behind all others.
    pub fn push(&mut self, operation: O)
        ensures
            final(self)@ == old(self)@.push(operation),
    {
        self.queue.push_back(operation);
    }

    /// Takes the first operation, if there is one.
    pub fn pop_front(&mut self) -> (r: Option<O>)
        ensures
            match r {
                Some(operation) => {
                    &&& old(self)@.len() > 0
                    &&& operation == old(self)@[0]
                    &&& final(self)@ == old(self)@.skip(1)
                },
                None => old(self)@.len() == 0 && final(self)@ == old(self)@,
            },
    {
        let r = self.queue.pop_front();
        proof {
            if r is Some {
                assert(self@ =~= old(self)@.skip(1));
            } else {
                assert(self@ =~= old(self)@);
            }
        }
        r
    }

    /// How many operations there are.
    pub fn len(&self) -> (r: usize)
        ensures
            r == self@.len(),
    {
        self.queue.len()
    }
}

/// An operation that is pushed leaves the queue after all those that were in it before, and
/// they leave it in the order in which they were pushed.
pub proof fn law_first_in_first_out<O>(before: Seq<O>, operation: O, k: int)
    requires
        0 <= k <= before.len(),
    ensures
        before.push(operation).skip(k)[0] == (if k < before.len() {
            before[k]
        } else {
            operation
        }),
        before.push(operation).skip(before.len() as int) == seq![operation],
{
    assert(before.push(operation).skip(before.len() as int) =~= seq![operation]);
}

} // verus!
