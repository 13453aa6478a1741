//! Collections.

use vstd::prelude::*;

verus! {

/// A fixed number of buffers that are filled from the front, for responses that have to be
/// written in the order of their requests.
#[derive(Debug)]
pub struct PipelineVec {
    pub buf: Vec<Vec<u8>>,
    /// The first slot that has not been written yet.
    pub cur: usize,
    /// The first slot that has not been filled yet.
    pub end: usize,
}

/// What a [`PipelineVec`] holds.
#[verifier::ext_equal]
pub struct PipelineView {
    pub slots: Seq<Seq<u8>>,
    pub cur: int,
    pub end: int,
}

impl View for PipelineVec {
    type V = PipelineView;

    open spec fn view(&self) -> PipelineView {
        PipelineView {
            slots: self.buf@.map_values(|slot: Vec<u8>| slot@),
            cur: self.cur as int,
            end: self.end as int,
        }
    }
}

impl PipelineView {
    /// So many empty slots, none of them filled.
    pub open spec fn empty(size: nat) -> Self {
        PipelineView { slots: Seq::new(size, |i: int| Seq::empty()), cur: 0, end: 0 }
    }

    /// The slots that are written come before those that are only filled.
    pub open spec fn wf(self) -> bool {
        0 <= self.cur <= self.end <= self.slots.len()
    }

    /// The buffers that are filled and not written yet, in order.
    pub open spec fn pending(self) -> Seq<Seq<u8>> {
        self.slots.subrange(self.cur, self.end)
    }

    /// One more slot filled.
    pub open spec fn push(self, value: Seq<u8>) -> Self {
        PipelineView { slots: self.slots.update(self.end, value), cur: self.cur, end: self.end + 1 }
    }
}

impl PipelineVec {
    /// Makes `size` empty slots.
    pub fn new(size: usize) -> (r: Self)
        ensures
            r@ == PipelineView::empty(size as nat),
            r@.wf(),
    {
        let mut buf: Vec<Vec<u8>> = Vec::new();
        let mut i: usize = 0;
        while i < size
            invariant
                i <= size,
                buf@.len() == i,
                forall|j: int| 0 <= j < i ==> (#[trigger] buf@[j])@ == Seq::<u8>::empty(),
            decreases size - i,
        {
            buf.push(Vec::new());
            i = i + 1;
        }
        let r = PipelineVec { buf, cur: 0, end: 0 };
        assert(r@.slots =~= PipelineView::empty(size as nat).slots);
        r
    }

    /// The number of slots.
    pub fn len(&self) -> (r: usize)
        ensures
            r == self@.slots.len(),
    {
        self.buf.len()
    }

    /// Fills the next slot.
    pub fn push(&mut self, value: Vec<u8>)
        requires
            old(self)@.wf(),
            old(self)@.end < old(self)@.slots.len(),
        ensures
            final(self)@ == old(self)@.push(value@),
            final(self)@.wf(),
    {
        let end = self.end;
        assert(end < self.buf.len());
        self.buf[end] = value;
        self.end = end + 1;
        assert(self@.slots =~= old(self)@.push(value@).slots);
    }
}

/// A buffer that is pushed waits behind those that were pushed before it, which stay as they
/// are; the number of slots never changes.
pub proof fn law_push_is_fifo(v: PipelineView, value: Seq<u8>)
    requires
        v.wf(),
        v.end < v.slots.len(),
    ensures
        v.push(value).wf(),
        v.push(value).pending() == v.pending().push(value),
        v.push(value).slots.len() == v.slots.len(),
{
    assert(v.push(value).pending() =~= v.pending().push(value));
}

/// As many buffers as there are slots can be pushed one after the other, and then they all
/// wait in the order in which they were pushed.
pub proof fn law_filled_in_order(size: nat, values: Seq<Seq<u8>>)
    requires
        values.len() <= size,
    ensures
        ({
            let v = values.fold_left(
                PipelineView::empty(size),
                |v: PipelineView, value: Seq<u8>| v.push(value),
            );
            &&& v.wf()
            &&& v.slots.len() == size
            &&& v.cur == 0
            &&& v.end == values.len()
            &&& v.pending() == values
        }),
    decreases values.len(),
{
    let f = |v: PipelineView, value: Seq<u8>| v.push(value);
    reveal_with_fuel(Seq::fold_left, 2);
    if values.len() == 0 {
        assert(PipelineView::empty(size).pending() =~= values);
    } else {
        law_filled_in_order(size, values.drop_last());
        let v = values.drop_last().fold_left(PipelineView::empty(size), f);
        law_push_is_fifo(v, values.last());
        assert(values.fold_left(PipelineView::empty(size), f) == f(v, values.last()));
        assert(values.drop_last().push(values.last()) =~= values);
    }
}

/// The view tells the fields: the slots by what they hold, in order.
pub proof fn law_view_tells_the_slots(p: PipelineVec)
    ensures
        p@.slots.len() == p.buf@.len(),
        forall|i: int| 0 <= i < p.buf@.len() ==> #[trigger] p@.slots[i] == p.buf@[i]@,
        p@.cur == p.cur,
        p@.end == p.end,
{
}

/// New slots are empty, and none of them is filled or written.
pub proof fn law_new_slots_are_empty(size: nat)
    ensures
        PipelineView::empty(size).slots.len() == size,
        forall|i: int|
            0 <= i < size ==> (#[trigger] PipelineView::empty(size).slots[i]).len() == 0,
        PipelineView::empty(size).cur == 0,
        PipelineView::empty(size).end == 0,
        PipelineView::empty(size).wf(),
{
}

/// A push changes the first slot that was not filled, and no other, whatever has been written.
pub proof fn law_push_fills_the_next_slot(v: PipelineView, value: Seq<u8>)
    requires
        0 <= v.end < v.slots.len(),
    ensures
        v.push(value).slots.len() == v.slots.len(),
        v.push(value).slots[v.end] == value,
        forall|i: int|
            0 <= i < v.slots.len() && i != v.end ==> #[trigger] v.push(value).slots[i]
                == v.slots[i],
        v.push(value).cur == v.cur,
        v.push(value).end == v.end + 1,
{
}

/// What waits are the slots from the first that has not been written to the last that has been
/// filled, in order.
pub proof fn law_pending_slots_are_filled_ones(v: PipelineView, i: int)
    requires
        0 <= v.cur <= v.end <= v.slots.len(),
    ensures
        v.wf(),
        v.pending().len() == v.end - v.cur,
        0 <= i < v.end - v.cur ==> v.pending()[i] == v.slots[v.cur + i],
{
}

} // verus!
