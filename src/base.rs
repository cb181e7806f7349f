use vstd::prelude::*;
use crate::timer::{has_bit, RrosTimer, RROS_TIMER_DEQUEUED};

verus! {

/// Dates are in non-decreasing order along the queue.
pub open spec fn sorted_by_date(q: Seq<RrosTimer>) -> bool {
    forall|i: int, j: int| 0 <= i < j < q.len() ==> q[i].date <= q[j].date
}

/// No two timers of the queue share an identity.
pub open spec fn distinct_ids(q: Seq<RrosTimer>) -> bool {
    forall|i: int, j: int| 0 <= i < j < q.len() ==> q[i].id != q[j].id
}

pub open spec fn contains_id(q: Seq<RrosTimer>, id: u64) -> bool {
    exists|i: int| 0 <= i < q.len() && q[i].id == id
}

/// A well-formed queue: ordered by date, every member attached, each
/// member present once.
pub open spec fn queue_wf(q: Seq<RrosTimer>) -> bool {
    &&& sorted_by_date(q)
    &&& distinct_ids(q)
    &&& forall|i: int| 0 <= i < q.len() ==> !has_bit(#[trigger] q[i].status, RROS_TIMER_DEQUEUED)
}

/// `t` as it stands in a queue: the detached bit cleared.
pub open spec fn attached(t: RrosTimer) -> RrosTimer {
    RrosTimer { status: t.status & !RROS_TIMER_DEQUEUED, ..t }
}

/// `t` as it leaves a queue: the detached bit set.
pub open spec fn detached(t: RrosTimer) -> RrosTimer {
    RrosTimer { status: t.status | RROS_TIMER_DEQUEUED, ..t }
}

/// Index at which a timer due at `date` goes: after every member due at or
/// before `date`, so that timers due at one date leave in the order they came.
pub open spec fn is_insert_pos(q: Seq<RrosTimer>, date: i64, pos: int) -> bool {
    &&& 0 <= pos <= q.len()
    &&& forall|j: int| 0 <= j < pos ==> q[j].date <= date
    &&& forall|j: int| pos <= j < q.len() ==> q[j].date > date
}

/// What a timer may still fire before its tick count runs out; the sum over
/// a queue bounds the work of one dispatch.
pub open spec fn room(t: RrosTimer) -> nat {
    (u64::MAX - t.periodic_ticks + 1) as nat
}

pub open spec fn total_room(q: Seq<RrosTimer>) -> nat
    decreases q.len(),
{
    if q.len() == 0 {
        0
    } else {
        room(q[0]) + total_room(q.drop_first())
    }
}

pub proof fn lemma_total_room_insert(q: Seq<RrosTimer>, pos: int, t: RrosTimer)
    requires
        0 <= pos <= q.len(),
    ensures
        total_room(q.insert(pos, t)) == total_room(q) + room(t),
    decreases q.len(),
{
    if pos == 0 {
        assert(q.insert(0, t).drop_first() =~= q);
    } else {
        assert(q.insert(pos, t).drop_first() =~= q.drop_first().insert(pos - 1, t));
        lemma_total_room_insert(q.drop_first(), pos - 1, t);
    }
}

proof fn lemma_clear_detached(s: u32)
    ensures
        (s & !RROS_TIMER_DEQUEUED) & RROS_TIMER_DEQUEUED == 0,
{
    assert((s & !0x4u32) & 0x4u32 == 0) by (bit_vector);
}

proof fn lemma_set_detached(s: u32)
    ensures
        (s | RROS_TIMER_DEQUEUED) & RROS_TIMER_DEQUEUED != 0,
{
    assert((s | 0x4u32) & 0x4u32 != 0) by (bit_vector);
}

/// The pending timers of one clock family on one CPU.
pub struct RrosTimerbase {
    q: Vec<RrosTimer>,
}

impl View for RrosTimerbase {
    type V = Seq<RrosTimer>;

    closed spec fn view(&self) -> Seq<RrosTimer> {
        self.q@
    }
}

impl RrosTimerbase {
    pub open spec fn wf(&self) -> bool {
        queue_wf(self@)
    }

    pub fn new() -> (r: Self)
        ensures
            r@ == Seq::<RrosTimer>::empty(),
            r.wf(),
    {
        RrosTimerbase { q: Vec::new() }
    }

    pub fn len(&self) -> (r: usize)
        ensures
            r == self@.len(),
    {
        self.q.len()
    }

    pub fn is_empty(&self) -> (r: bool)
        ensures
            r == (self@.len() == 0),
    {
        self.q.len() == 0
    }

    /// The timer at `index` in queue order.
    pub fn get(&self, index: usize) -> (r: Option<RrosTimer>)
        ensures
            r == (if index < self@.len() { Some(self@[index as int]) } else { None::<RrosTimer> }),
    {
        if index < self.q.len() {
            Some(self.q[index])
        } else {
            None
        }
    }

    /// The first timer due.
    pub fn peek_head(&self) -> (r: Option<RrosTimer>)
        ensures
            r == (if self@.len() > 0 { Some(self@[0]) } else { None::<RrosTimer> }),
    {
        self.get(0)
    }

    /// Whether a timer of identity `id` is queued.
    pub fn contains(&self, id: u64) -> (r: bool)
        ensures
            r == contains_id(self@, id),
    {
        let mut i: usize = 0;
        while i < self.q.len()
            invariant
                0 <= i <= self@.len(),
                forall|j: int| 0 <= j < i ==> self@[j].id != id,
            decreases self@.len() - i,
        {
            if self.q[i].id == id {
                return true;
            }
            i = i + 1;
        }
        false
    }

    /// Queues `t` after every timer due at or before its date, and marks it
    /// attached.
    pub fn enqueue(&mut self, t: RrosTimer)
        requires
            old(self).wf(),
            !contains_id(old(self)@, t.id),
        ensures
            final(self).wf(),
            exists|pos: int|
                is_insert_pos(old(self)@, t.date, pos) && final(self)@ == old(self)@.insert(
                    pos,
                    attached(t),
                ),
    {
        let mut pos: usize = 0;
        while pos < self.q.len() && self.q[pos].date <= t.date
            invariant
                0 <= pos <= self@.len(),
                forall|j: int| 0 <= j < pos ==> self@[j].date <= t.date,
            decreases self@.len() - pos,
        {
            pos = pos + 1;
        }
        proof {
            assert forall|j: int| pos <= j < self@.len() implies self@[j].date > t.date by {
                assert(self@[pos as int].date > t.date);
            }
            lemma_clear_detached(t.status);
        }
        let ghost before = self@;
        let mut a = t;
        a.status = a.status & !RROS_TIMER_DEQUEUED;
        self.q.insert(pos, a);
        proof {
            assert(self@ == before.insert(pos as int, attached(t)));
            assert(is_insert_pos(before, t.date, pos as int));
            assert forall|i: int| 0 <= i < self@.len() implies !has_bit(
                #[trigger] self@[i].status,
                RROS_TIMER_DEQUEUED,
            ) by {
                if i > pos {
                    assert(self@[i] == before[i - 1]);
                }
            }
            assert forall|i: int, j: int| 0 <= i < j < self@.len() implies self@[i].id
                != self@[j].id by {
                if i == pos {
                    assert(self@[j] == before[j - 1]);
                } else if j == pos {
                    assert(self@[i] == before[i]);
                }
            }
        }
    }

    /// Takes the timer at `index` out of the queue, marked detached.
    pub fn dequeue(&mut self, index: usize) -> (r: RrosTimer)
        requires
            old(self).wf(),
            index < old(self)@.len(),
        ensures
            final(self).wf(),
            final(self)@ == old(self)@.remove(index as int),
            r == detached(old(self)@[index as int]),
            has_bit(r.status, RROS_TIMER_DEQUEUED),
    {
        let mut t = self.q.remove(index);
        proof {
            lemma_set_detached(t.status);
        }
        t.status = t.status | RROS_TIMER_DEQUEUED;
        t
    }

    /// Takes the first timer due out of the queue, marked detached.
    pub fn pop_head(&mut self) -> (r: RrosTimer)
        requires
            old(self).wf(),
            old(self)@.len() > 0,
        ensures
            final(self).wf(),
            final(self)@ == old(self)@.drop_first(),
            r == detached(old(self)@[0]),
            has_bit(r.status, RROS_TIMER_DEQUEUED),
    {
        let r = self.dequeue(0);
        assert(self@ =~= old(self)@.drop_first());
        r
    }
}

} // verus!

verus! {

/// A detached timer is in no well-formed queue, and a queued timer stands
/// in its queue once.
pub proof fn lemma_exactly_one_membership(q: Seq<RrosTimer>, t: RrosTimer)
    requires
        queue_wf(q),
    ensures
        has_bit(t.status, RROS_TIMER_DEQUEUED) ==> !q.contains(t),
        forall|i: int, j: int|
            0 <= i < q.len() && 0 <= j < q.len() && q[i].id == t.id && q[j].id == t.id ==> i == j,
{
    if has_bit(t.status, RROS_TIMER_DEQUEUED) && q.contains(t) {
        let i = choose|i: int| 0 <= i < q.len() && q[i] == t;
        assert(!has_bit(q[i].status, RROS_TIMER_DEQUEUED));
    }
}

} // verus!
