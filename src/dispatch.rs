use vstd::prelude::*;
use crate::base::{contains_id, room, total_room, lemma_total_room_insert, RrosTimerbase};
use crate::clock::{RrosClock, Shot, TimeSource};
use crate::base::{attached, is_insert_pos};
use crate::timer::{
    can_catch_up, catch_up_ticks, date_at, RROS_TIMER_DEQUEUED,
    needs_enqueuing_spec, RrosTimer, RROS_TIMER_FIRED, RROS_TIMER_KILLED, RROS_TIMER_RUNNING,
};

verus! {

/// The run-queue is dispatching timers.
pub const RQ_TIMER: u32 = 0x0001_0000;

/// The host kernel's proxy timer fired: the host is owed a tick.
pub const RQ_TPROXY: u32 = 0x0000_8000;

/// The host kernel's tick is deferred.
pub const RQ_TDEFER: u32 = 0x0000_0800;

/// What the dispatch core reads and marks on the scheduler's per-CPU
/// run-queue.
#[derive(Clone, Copy, Debug, PartialEq, Eq, Structural)]
pub struct RrosRq {
    pub cpu: u32,
    pub local_flags: u32,
    /// Identity of the timer that stands for the host kernel's tick.
    pub inband_timer: u64,
    /// The task running on this CPU belongs to the host kernel.
    pub curr_is_root: bool,
}

/// Flags once the proxy timer fired.
pub open spec fn proxy_flags(f: u32) -> u32 {
    (f | RQ_TPROXY) & !RQ_TDEFER
}

/// Flags after a dispatch that started with `f`.
pub open spec fn tick_flags(f: u32, proxy_fired: bool) -> u32 {
    if proxy_fired {
        proxy_flags(f | RQ_TIMER) & !RQ_TIMER
    } else {
        (f | RQ_TIMER) & !RQ_TIMER
    }
}

proof fn lemma_proxy_flags_idempotent(f: u32)
    ensures
        proxy_flags(proxy_flags(f)) == proxy_flags(f),
{
    assert((((f | 0x8000u32) & !0x800u32) | 0x8000u32) & !0x800u32 == (f | 0x8000u32)
        & !0x800u32) by (bit_vector);
}

impl RrosRq {
    pub fn new(cpu: u32, inband_timer: u64, curr_is_root: bool) -> (r: Self)
        ensures
            r == (RrosRq { cpu, local_flags: 0, inband_timer, curr_is_root }),
    {
        RrosRq { cpu, local_flags: 0, inband_timer, curr_is_root }
    }

    pub fn add_local_flags(&mut self, bits: u32)
        ensures
            *final(self) == (RrosRq { local_flags: old(self).local_flags | bits, ..*old(self) }),
    {
        self.local_flags = self.local_flags | bits;
    }

    /// Keeps the flags that `mask` has.
    pub fn change_local_flags(&mut self, mask: u32)
        ensures
            *final(self) == (RrosRq { local_flags: old(self).local_flags & mask, ..*old(self) }),
    {
        self.local_flags = self.local_flags & mask;
    }

    pub fn get_local_flags(&self) -> (r: u32)
        ensures
            r == self.local_flags,
    {
        self.local_flags
    }
}

/// What a timer handler asks of its timer once it ran.
#[derive(Clone, Copy, Debug, PartialEq, Eq, Structural)]
pub enum HandlerVerdict {
    /// Leave the timer as it is.
    Keep,
    /// Stop the timer: it is no longer running.
    Stop,
    /// Destroy the timer.
    Kill,
}

/// The handlers of the timers. The handler of a timer runs when the timer
/// fires, must not sleep, and decides what becomes of the timer.
pub trait TimerHandler {
    fn handle(&mut self, timer: &RrosTimer) -> HandlerVerdict;
}

/// The timer once its handler's verdict is applied.
pub open spec fn apply_verdict(t: RrosTimer, v: HandlerVerdict) -> RrosTimer {
    match v {
        HandlerVerdict::Keep => t,
        HandlerVerdict::Stop => RrosTimer { status: t.status & !RROS_TIMER_RUNNING, ..t },
        HandlerVerdict::Kill => RrosTimer { status: t.status | RROS_TIMER_KILLED, ..t },
    }
}

/// Result of one dispatch.
#[derive(Clone, Copy, Debug, PartialEq, Eq, Structural)]
pub struct TickOutcome {
    /// The last reading of the clock.
    pub now: i64,
    /// Whether the host kernel's proxy timer fired.
    pub proxy_fired: bool,
    /// The shot programmed for the next due timer.
    pub shot: Shot,
}

/// The shot `clock` programs from a base whose queue is `q`.
pub open spec fn local_shot_spec(clock: RrosClock, q: Seq<RrosTimer>) -> Shot {
    if !clock.ops.program_local_shot {
        Shot::Nothing
    } else if q.len() == 0 {
        Shot::Local(None)
    } else {
        Shot::Local(Some(q[0].date))
    }
}

/// `t` as it is handed to its handler once taken out of the queue: one more
/// shot counted, detached and marked fired.
pub open spec fn fired_spec(t: RrosTimer) -> RrosTimer {
    RrosTimer {
        fired: if t.fired < u64::MAX { (t.fired + 1) as u64 } else { t.fired },
        status: (t.status | RROS_TIMER_DEQUEUED) | RROS_TIMER_FIRED,
        ..t
    }
}

/// `t` moved to its catch-up point for the reading `now` and gravity `g`.
pub open spec fn caught_up(t: RrosTimer, now: int, g: int) -> RrosTimer {
    let k = catch_up_ticks(t, now, g);
    RrosTimer { periodic_ticks: k as u64, date: date_at(t, k, g) as i64, ..t }
}

/// Whether a fired timer, once its handler's verdict is applied, goes back
/// into the queue of `cpu` at the reading `now`.
pub open spec fn rearms(t: RrosTimer, now: int, g: int, cpu: u32) -> bool {
    needs_enqueuing_spec(t) && can_catch_up(t, now, g) && t.cpu == cpu
}

/// `y` is the fired timer `x` queued again at the reading `now`, with gravity
/// `g`, on `cpu`.
pub open spec fn rearmed_form(y: RrosTimer, x: RrosTimer, now: int, g: int, cpu: u32) -> bool {
    rearms(x, now, g, cpu) && y == attached(caught_up(x, now, g))
}

/// Takes the first due timer out of `base` and counts its shot. The host
/// kernel's proxy timer only marks the run-queue, and `None` is returned;
/// any other timer is returned, to be handed to its handler.
pub fn fire_head(base: &mut RrosTimerbase, rq: &mut RrosRq) -> (r: Option<RrosTimer>)
    requires
        old(base).wf(),
        old(base)@.len() > 0,
    ensures
        final(base).wf(),
        final(base)@ == old(base)@.drop_first(),
        old(base)@[0].id == old(rq).inband_timer ==> r is None && *final(rq) == (RrosRq {
            local_flags: proxy_flags(old(rq).local_flags),
            ..*old(rq)
        }),
        old(base)@[0].id != old(rq).inband_timer ==> r == Some(fired_spec(old(base)@[0]))
            && *final(rq) == *old(rq),
{
    let mut t = base.pop_head();
    t.account_fired();
    t.add_status(RROS_TIMER_FIRED);
    if t.id == rq.inband_timer {
        rq.add_local_flags(RQ_TPROXY);
        rq.change_local_flags(!RQ_TDEFER);
        return None;
    }
    Some(t)
}

/// Applies the handler's verdict to the fired timer `t` and, if it is
/// periodic, still running, can be caught up with the reading `now` and
/// belongs to `cpu`, queues it again at its catch-up point. Returns whether
/// it was queued.
pub fn rearm(base: &mut RrosTimerbase, t: RrosTimer, verdict: HandlerVerdict, now: i64, g: i64, cpu: u32) -> (r: bool)
    requires
        old(base).wf(),
        !contains_id(old(base)@, t.id),
    ensures
        final(base).wf(),
        r == rearms(apply_verdict(t, verdict), now as int, g as int, cpu),
        !r ==> final(base)@ == old(base)@,
        r ==> catch_up_ticks(apply_verdict(t, verdict), now as int, g as int) > t.periodic_ticks,
        r ==> exists|pos: int|
            is_insert_pos(
                old(base)@,
                caught_up(apply_verdict(t, verdict), now as int, g as int).date,
                pos,
            ) && final(base)@ == #[trigger] old(base)@.insert(
                pos,
                attached(caught_up(apply_verdict(t, verdict), now as int, g as int)),
            ),
{
    let ghost t0 = t;
    let mut t = t;
    match verdict {
        HandlerVerdict::Keep => {},
        HandlerVerdict::Stop => t.clear_status(RROS_TIMER_RUNNING),
        HandlerVerdict::Kill => t.add_status(RROS_TIMER_KILLED),
    }
    assert(t == apply_verdict(t0, verdict));
    if !t.needs_enqueuing() {
        return false;
    }
    match t.catch_up(now, g) {
        Some(t2) => {
            assert(t2 == caught_up(t, now as int, g as int));
            if t2.on_rq(cpu) {
                base.enqueue(t2);
                true
            } else {
                false
            }
        },
        None => false,
    }
}

/// The timers of `q` whose identity is one of a timer of `s`, in order.
pub open spec fn keep(q: Seq<RrosTimer>, s: Seq<RrosTimer>) -> Seq<RrosTimer>
    decreases q.len(),
{
    if q.len() == 0 {
        Seq::empty()
    } else if contains_id(s, q[0].id) {
        seq![q[0]] + keep(q.drop_first(), s)
    } else {
        keep(q.drop_first(), s)
    }
}

proof fn lemma_keep_insert(q: Seq<RrosTimer>, pos: int, t: RrosTimer, s: Seq<RrosTimer>)
    requires
        0 <= pos <= q.len(),
        !contains_id(s, t.id),
    ensures
        keep(q.insert(pos, t), s) == keep(q, s),
    decreases q.len(),
{
    if pos == 0 {
        assert(q.insert(0, t).drop_first() =~= q);
    } else {
        assert(q.insert(pos, t).drop_first() =~= q.drop_first().insert(pos - 1, t));
        lemma_keep_insert(q.drop_first(), pos - 1, t, s);
    }
}

proof fn lemma_keep_congruent(q: Seq<RrosTimer>, left: Seq<RrosTimer>, right: Seq<RrosTimer>)
    requires
        forall|j: int| 0 <= j < q.len() ==> contains_id(left, (#[trigger] q[j]).id) == contains_id(right, q[j].id),
    ensures
        keep(q, left) == keep(q, right),
    decreases q.len(),
{
    if q.len() > 0 {
        assert(forall|j: int| 0 <= j < q.drop_first().len() ==> #[trigger] q.drop_first()[j] == q[j + 1]);
        lemma_keep_congruent(q.drop_first(), left, right);
    }
}

proof fn lemma_keep_members(q: Seq<RrosTimer>, s: Seq<RrosTimer>)
    ensures
        forall|k: int| 0 <= k < keep(q, s).len() ==> q.contains(#[trigger] keep(q, s)[k]),
    decreases q.len(),
{
    if q.len() > 0 {
        lemma_keep_members(q.drop_first(), s);
        assert forall|k: int| 0 <= k < keep(q, s).len() implies q.contains(#[trigger] keep(q, s)[k]) by {
            if contains_id(s, q[0].id) {
                if k == 0 {
                    assert(q[0] == keep(q, s)[k]);
                } else {
                    let x = keep(q.drop_first(), s)[k - 1];
                    assert(keep(q, s)[k] == x);
                    let j = choose|j: int| 0 <= j < q.drop_first().len() && q.drop_first()[j] == x;
                    assert(q[j + 1] == x);
                }
            } else {
                let x = keep(q.drop_first(), s)[k];
                let j = choose|j: int| 0 <= j < q.drop_first().len() && q.drop_first()[j] == x;
                assert(q[j + 1] == x);
            }
        }
    }
}

proof fn lemma_keep_all(q: Seq<RrosTimer>, s: Seq<RrosTimer>)
    requires
        forall|j: int| 0 <= j < q.len() ==> contains_id(s, (#[trigger] q[j]).id),
    ensures
        keep(q, s) == q,
    decreases q.len(),
{
    if q.len() > 0 {
        assert(forall|j: int| 0 <= j < q.drop_first().len() ==> #[trigger] q.drop_first()[j] == q[j + 1]);
        lemma_keep_all(q.drop_first(), s);
        assert(seq![q[0]] + q.drop_first() =~= q);
    }
}

proof fn lemma_keep_self(q: Seq<RrosTimer>)
    ensures
        keep(q, q) == q,
{
    assert forall|j: int| 0 <= j < q.len() implies contains_id(q, (#[trigger] q[j]).id) by {}
    lemma_keep_all(q, q);
}

/// Taking the head `qa[0]` out of a queue in the frame of a dispatch over
/// `q0` with `n` timers of `q0` fired.
proof fn lemma_dispatch_pop(q0: Seq<RrosTimer>, qa: Seq<RrosTimer>, n: int, proxy: u64)
    requires
        crate::base::queue_wf(q0),
        crate::base::queue_wf(qa),
        qa.len() > 0,
        0 <= n <= q0.len(),
        keep(qa, q0.skip(n)) == q0.skip(n),
    ensures
        !contains_id(qa.drop_first(), qa[0].id),
        contains_id(q0.skip(n), qa[0].id) ==> {
            &&& n < q0.len()
            &&& qa[0] == q0[n]
            &&& keep(qa.drop_first(), q0.skip(n + 1)) == q0.skip(n + 1)
            &&& forall|j: int|
                0 <= j < qa.drop_first().len() && !contains_id(
                    q0.skip(n + 1),
                    (#[trigger] qa.drop_first()[j]).id,
                ) ==> !contains_id(q0.skip(n), qa.drop_first()[j].id)
            &&& forall|x: u64| #[trigger]
                contains_id(q0.take(n + 1), x) == (contains_id(q0.take(n), x) || x == q0[n].id)
        },
        !contains_id(q0.skip(n), qa[0].id) ==> keep(qa.drop_first(), q0.skip(n)) == q0.skip(n),
{
    let rest = qa.drop_first();
    assert forall|i: int| 0 <= i < rest.len() implies rest[i].id != qa[0].id by {
        assert(rest[i] == qa[i + 1]);
    }
    if contains_id(q0.skip(n), qa[0].id) {
        assert(keep(qa, q0.skip(n)) == seq![qa[0]] + keep(rest, q0.skip(n)));
        assert(q0.skip(n)[0] == qa[0]);
        assert(q0.skip(n).drop_first() =~= q0.skip(n + 1));
        assert(keep(rest, q0.skip(n)) == q0.skip(n + 1));
        assert forall|j: int| 0 <= j < rest.len() implies contains_id(
            q0.skip(n),
            (#[trigger] rest[j]).id,
        ) == contains_id(q0.skip(n + 1), rest[j].id) by {
            if contains_id(q0.skip(n), rest[j].id) {
                let i = choose|i: int| 0 <= i < q0.skip(n).len() && q0.skip(n)[i].id == rest[j].id;
                assert(i != 0);
                assert(q0.skip(n + 1)[i - 1] == q0.skip(n)[i]);
            }
            if contains_id(q0.skip(n + 1), rest[j].id) {
                let i = choose|i: int| 0 <= i < q0.skip(n + 1).len() && (#[trigger] q0.skip(n + 1)[i]).id == rest[j].id;
                assert(q0.skip(n + 1)[i] == q0.skip(n)[i + 1]);
            }
        }
        lemma_keep_congruent(rest, q0.skip(n), q0.skip(n + 1));
        assert forall|x: u64| #[trigger]
            contains_id(q0.take(n + 1), x) == (contains_id(q0.take(n), x) || x == q0[n].id) by {
            if contains_id(q0.take(n), x) {
                let i = choose|i: int| 0 <= i < q0.take(n).len() && q0.take(n)[i].id == x;
                assert(q0.take(n + 1)[i] == q0.take(n)[i]);
            }
            if x == q0[n].id {
                assert(q0.take(n + 1)[n] == q0[n]);
            }
            if contains_id(q0.take(n + 1), x) {
                let i = choose|i: int| 0 <= i < q0.take(n + 1).len() && (#[trigger] q0.take(n + 1)[i]).id == x;
                if i < n {
                    assert(q0.take(n)[i] == q0.take(n + 1)[i]);
                }
            }
        }
    } else {
        assert(keep(qa, q0.skip(n)) == keep(rest, q0.skip(n)));
    }
}

/// What a dispatch did to the queue `q0`, leaving `q1`, the first `n` of its
/// timers having been due: the others stay in `q1`, unchanged and in their
/// order, and are all due after `now`; every other member of `q1` is a
/// periodic timer of `cpu` that was fired and queued again at its catch-up
/// point for some reading, with gravity `g`; the proxy timer
/// `proxy` fired exactly when it was among the first `n`.
pub open spec fn dispatch_frame(
    q0: Seq<RrosTimer>,
    q1: Seq<RrosTimer>,
    n: int,
    proxy: u64,
    proxy_fired: bool,
    cpu: u32,
    now: int,
    g: int,
) -> bool {
    &&& 0 <= n <= q0.len()
    &&& keep(q1, q0.skip(n)) == q0.skip(n)
    &&& forall|j: int|
        0 <= j < q1.len() && !contains_id(q0.skip(n), (#[trigger] q1[j]).id) ==> {
            &&& contains_id(q0.take(n), q1[j].id)
            &&& q1[j].id != proxy
            &&& q1[j].cpu == cpu
            &&& q1[j].interval > 0
            &&& exists|x: RrosTimer, t: int| #[trigger] rearmed_form(q1[j], x, t, g, cpu)
        }
    &&& proxy_fired == contains_id(q0.take(n), proxy)
    &&& forall|i: int| n <= i < q0.len() ==> (#[trigger] q0[i]).date > now
}

/// Fires every timer of `base` that is due, on the CPU of `rq`.
///
/// Due timers leave the queue head first (`fire_head`). The proxy timer of
/// the host kernel only marks the run-queue; any other timer has its
/// handler run, and then goes through `rearm` with the handler's verdict
/// and the clock's new reading. The next shot is then programmed.
pub fn do_clock_tick<S: TimeSource, H: TimerHandler>(
    clock: &RrosClock,
    base: &mut RrosTimerbase,
    rq: &mut RrosRq,
    src: &mut S,
    handler: &mut H,
) -> (r: TickOutcome)
    requires
        old(base).wf(),
    ensures
        final(base).wf(),
        final(base)@.len() > 0 ==> final(base)@[0].date > r.now,
        exists|n: int|
            #[trigger] dispatch_frame(
                old(base)@,
                final(base)@,
                n,
                old(rq).inband_timer,
                r.proxy_fired,
                old(rq).cpu,
                r.now as int,
                clock.gravity.kernel as int,
            ),
        r.proxy_fired ==> !contains_id(final(base)@, old(rq).inband_timer),
        *final(rq) == (RrosRq {
            local_flags: tick_flags(old(rq).local_flags, r.proxy_fired),
            ..*old(rq)
        }),
        r.shot == local_shot_spec(*clock, final(base)@),
{
    let ghost f0 = rq.local_flags;
    let ghost q0 = base@;
    let ghost proxy = rq.inband_timer;
    let ghost mut n: int = 0;
    rq.add_local_flags(RQ_TIMER);
    let g = clock.gravity.kernel;
    let mut now = clock.read(src);
    let mut proxy_fired = false;
    proof {
        assert(q0.skip(0) =~= q0);
        assert(q0.take(0) =~= Seq::<RrosTimer>::empty());
        lemma_keep_self(q0);
    }
    loop
        invariant
            base.wf(),
            crate::base::queue_wf(q0),
            proxy == rq.inband_timer,
            *rq == (RrosRq {
                local_flags: if proxy_fired { proxy_flags(f0 | RQ_TIMER) } else { f0 | RQ_TIMER },
                ..*old(rq)
            }),
            proxy_fired ==> !contains_id(base@, rq.inband_timer),
            0 <= n <= q0.len(),
            keep(base@, q0.skip(n)) == q0.skip(n),
            forall|j: int|
                0 <= j < base@.len() && !contains_id(q0.skip(n), (#[trigger] base@[j]).id) ==> {
                    &&& contains_id(q0.take(n), base@[j].id)
                    &&& base@[j].id != proxy
                    &&& base@[j].cpu == rq.cpu
                    &&& base@[j].interval > 0
                    &&& exists|x: RrosTimer, t: int| #[trigger] rearmed_form(base@[j], x, t, g as int, rq.cpu)
                },
            proxy_fired == contains_id(q0.take(n), proxy),
        ensures
            base.wf(),
            base@.len() > 0 ==> base@[0].date > now,
            *rq == (RrosRq {
                local_flags: if proxy_fired { proxy_flags(f0 | RQ_TIMER) } else { f0 | RQ_TIMER },
                ..*old(rq)
            }),
            proxy_fired ==> !contains_id(base@, rq.inband_timer),
            0 <= n <= q0.len(),
            keep(base@, q0.skip(n)) == q0.skip(n),
            forall|j: int|
                0 <= j < base@.len() && !contains_id(q0.skip(n), (#[trigger] base@[j]).id) ==> {
                    &&& contains_id(q0.take(n), base@[j].id)
                    &&& base@[j].id != proxy
                    &&& base@[j].cpu == rq.cpu
                    &&& base@[j].interval > 0
                    &&& exists|x: RrosTimer, t: int| #[trigger] rearmed_form(base@[j], x, t, g as int, rq.cpu)
                },
            proxy_fired == contains_id(q0.take(n), proxy),
        decreases total_room(base@),
    {
        match base.peek_head() {
            None => break,
            Some(h) => {
                if h.date > now {
                    break;
                }
            },
        }
        let ghost qa = base@;
        let ghost h = qa[0];
        let ghost orig_head = contains_id(q0.skip(n), h.id);
        proof {
            lemma_dispatch_pop(q0, qa, n, proxy);
        }
        let fired = fire_head(base, rq);
        proof {
            let rest = base@;
            let n0 = n;
            if orig_head {
                n = n + 1;
                assert forall|j: int|
                    0 <= j < rest.len() && !contains_id(q0.skip(n), (#[trigger] rest[j]).id) implies {
                        &&& contains_id(q0.take(n), rest[j].id)
                        &&& rest[j].id != proxy
                        &&& rest[j].cpu == rq.cpu
                        &&& rest[j].interval > 0
                        &&& exists|x: RrosTimer, t: int| #[trigger] rearmed_form(rest[j], x, t, g as int, rq.cpu)
                    } by {
                    assert(rest[j] == qa[j + 1]);
                    assert(qa.drop_first()[j] == rest[j]);
                    assert(!contains_id(q0.skip(n0), qa[j + 1].id));
                    assert(contains_id(q0.take(n), rest[j].id) == (contains_id(q0.take(n0), rest[j].id)
                        || rest[j].id == q0[n0].id));
                }
                assert(contains_id(q0.take(n), proxy) == (contains_id(q0.take(n0), proxy) || proxy
                    == q0[n0].id));
            } else {
                assert forall|j: int|
                    0 <= j < rest.len() && !contains_id(q0.skip(n), (#[trigger] rest[j]).id) implies {
                        &&& contains_id(q0.take(n), rest[j].id)
                        &&& rest[j].id != proxy
                        &&& rest[j].cpu == rq.cpu
                        &&& rest[j].interval > 0
                        &&& exists|x: RrosTimer, t: int| #[trigger] rearmed_form(rest[j], x, t, g as int, rq.cpu)
                    } by {
                    assert(rest[j] == qa[j + 1]);
                }
                assert(!contains_id(q0.skip(n), qa[0].id) ==> qa[0].id != proxy);
            }
            if proxy_fired {
                assert forall|i: int| 0 <= i < rest.len() implies rest[i].id != proxy by {
                    assert(rest[i] == qa[i + 1]);
                }
            }
        }
        match fired {
            None => {
                proof {
                    if proxy_fired {
                        lemma_proxy_flags_idempotent(f0 | RQ_TIMER);
                    }
                }
                proxy_fired = true;
            },
            Some(t) => {
                let verdict = handler.handle(&t);
                now = clock.read(src);
                let ghost q1 = base@;
                let cpu = rq.cpu;
                if rearm(base, t, verdict, now, g, cpu) {
                    proof {
                        let c = caught_up(apply_verdict(t, verdict), now as int, g as int);
                        let pos = choose|pos: int|
                            is_insert_pos(q1, c.date, pos) && base@ == #[trigger] q1.insert(pos, attached(c));
                        lemma_total_room_insert(q1, pos, attached(c));
                        lemma_keep_insert(q1, pos, attached(c), q0.skip(n));
                        assert forall|j: int|
                            0 <= j < base@.len() && !contains_id(q0.skip(n), (#[trigger] base@[j]).id) implies {
                                &&& contains_id(q0.take(n), base@[j].id)
                                &&& base@[j].id != proxy
                                &&& base@[j].cpu == rq.cpu
                                &&& base@[j].interval > 0
                                &&& exists|x: RrosTimer, t: int| #[trigger] rearmed_form(base@[j], x, t, g as int, rq.cpu)
                            } by {
                            if j == pos {
                                assert(rearmed_form(base@[j], apply_verdict(t, verdict), now as int, g as int, rq.cpu));
                            } else if j < pos {
                                assert(base@[j] == q1[j]);
                            } else if j > pos {
                                assert(base@[j] == q1[j - 1]);
                            }
                        }
                        if proxy_fired {
                            assert forall|i: int| 0 <= i < base@.len() implies base@[i].id
                                != rq.inband_timer by {
                                if i < pos {
                                    assert(base@[i] == q1[i]);
                                } else if i > pos {
                                    assert(base@[i] == q1[i - 1]);
                                }
                            }
                        }
                    }
                }
            },
        }
    }
    proof {
        lemma_keep_members(base@, q0.skip(n));
        assert forall|i: int| n <= i < q0.len() implies (#[trigger] q0[i]).date > now by {
            assert(keep(base@, q0.skip(n))[i - n] == q0[i]);
            let j = choose|j: int| 0 <= j < base@.len() && base@[j] == q0[i];
            assert(base@[0].date <= base@[j].date);
        }
        assert(dispatch_frame(q0, base@, n, proxy, proxy_fired, rq.cpu, now as int, g as int));
    }
    rq.change_local_flags(!RQ_TIMER);
    let shot = clock.program_local_shot(base);
    let r = TickOutcome { now, proxy_fired, shot };
    assert(dispatch_frame(
        old(base)@,
        base@,
        n,
        old(rq).inband_timer,
        r.proxy_fired,
        old(rq).cpu,
        r.now as int,
        g as int,
    ));
    r
}

/// Result of a core tick.
#[derive(Clone, Copy, Debug, PartialEq, Eq, Structural)]
pub struct CoreTickOutcome {
    pub tick: TickOutcome,
    /// The host kernel is to run its own tick.
    pub notify_inband: bool,
}

/// Entry point of the tick on one CPU.
pub struct RrosCoreTick;

impl RrosCoreTick {
    /// Dispatches the monotonic clock's timers of this CPU; the host kernel
    /// is then told to run its own tick where its proxy timer fired and the
    /// running task is the host's.
    pub fn core_tick<S: TimeSource, H: TimerHandler>(
        mono: &RrosClock,
        base: &mut RrosTimerbase,
        rq: &mut RrosRq,
        src: &mut S,
        handler: &mut H,
    ) -> (r: CoreTickOutcome)
        requires
            old(base).wf(),
        ensures
            final(base).wf(),
            final(base)@.len() > 0 ==> final(base)@[0].date > r.tick.now,
            exists|n: int|
                #[trigger] dispatch_frame(
                    old(base)@,
                    final(base)@,
                    n,
                    old(rq).inband_timer,
                    r.tick.proxy_fired,
                    old(rq).cpu,
                    r.tick.now as int,
                    mono.gravity.kernel as int,
                ),
            *final(rq) == (RrosRq {
                local_flags: tick_flags(old(rq).local_flags, r.tick.proxy_fired),
                ..*old(rq)
            }),
            r.tick.shot == local_shot_spec(*mono, final(base)@),
            r.notify_inband == (final(rq).local_flags & RQ_TPROXY != 0 && old(rq).curr_is_root),
    {
        let tick = do_clock_tick(mono, base, rq, src, handler);
        let notify_inband = rq.local_flags & RQ_TPROXY != 0 && rq.curr_is_root;
        CoreTickOutcome { tick, notify_inband }
    }
}

} // verus!
