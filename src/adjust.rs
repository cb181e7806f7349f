use vstd::prelude::*;
use crate::base::{attached, contains_id, detached, is_insert_pos, RrosTimerbase};
use crate::clock::{RrosClock, Shot};
use crate::timer::{
    clamp_i64, date_at, has_bit, RrosTimer, RROS_TIMER_DEQUEUED, RROS_TIMER_FIRED, RROS_TIMER_RUNNING,
};

verus! {

/// The timers of `q` that belong to another clock than `id`, in queue order.
pub open spec fn others(q: Seq<RrosTimer>, id: u32) -> Seq<RrosTimer>
    decreases q.len(),
{
    if q.len() == 0 {
        Seq::empty()
    } else if q[0].clock == id {
        others(q.drop_first(), id)
    } else {
        seq![q[0]] + others(q.drop_first(), id)
    }
}

pub proof fn lemma_others_insert(q: Seq<RrosTimer>, pos: int, t: RrosTimer, id: u32)
    requires
        0 <= pos <= q.len(),
        t.clock == id,
    ensures
        others(q.insert(pos, t), id) == others(q, id),
    decreases q.len(),
{
    if pos == 0 {
        assert(q.insert(0, t).drop_first() =~= q);
    } else {
        assert(q.insert(pos, t).drop_first() =~= q.drop_first().insert(pos - 1, t));
        lemma_others_insert(q.drop_first(), pos - 1, t, id);
    }
}

pub proof fn lemma_others_remove(q: Seq<RrosTimer>, i: int, id: u32)
    requires
        0 <= i < q.len(),
        q[i].clock == id,
    ensures
        others(q.remove(i), id) == others(q, id),
{
    assert(q.remove(i).insert(i, q[i]) =~= q);
    lemma_others_insert(q.remove(i), i, q[i], id);
}

/// The timers of `q` that belong to clock `id`, in queue order.
pub open spec fn mine(q: Seq<RrosTimer>, id: u32) -> Seq<RrosTimer>
    decreases q.len(),
{
    if q.len() == 0 {
        Seq::empty()
    } else if q[0].clock == id {
        seq![q[0]] + mine(q.drop_first(), id)
    } else {
        mine(q.drop_first(), id)
    }
}

proof fn lemma_mine_remove(q: Seq<RrosTimer>, i: int, id: u32)
    requires
        0 <= i < q.len(),
        forall|j: int| 0 <= j < i ==> (#[trigger] q[j]).clock != id,
        q[i].clock == id,
    ensures
        mine(q, id).len() > 0,
        mine(q, id)[0] == q[i],
        mine(q.remove(i), id) == mine(q, id).drop_first(),
    decreases i,
{
    if i == 0 {
        assert(q.remove(0) =~= q.drop_first());
        assert(mine(q, id) == seq![q[0]] + mine(q.drop_first(), id));
        assert((seq![q[0]] + mine(q.drop_first(), id)).drop_first() =~= mine(q.drop_first(), id));
    } else {
        let r = q.drop_first();
        assert forall|j: int| 0 <= j < i - 1 implies (#[trigger] r[j]).clock != id by {
            assert(r[j] == q[j + 1]);
        }
        lemma_mine_remove(r, i - 1, id);
        assert(q.remove(i).drop_first() =~= r.remove(i - 1));
        assert(q.remove(i)[0] == q[0]);
    }
}

proof fn lemma_mine_none(q: Seq<RrosTimer>, id: u32)
    requires
        forall|j: int| 0 <= j < q.len() ==> (#[trigger] q[j]).clock != id,
    ensures
        mine(q, id).len() == 0,
    decreases q.len(),
{
    if q.len() > 0 {
        assert(forall|j: int| 0 <= j < q.drop_first().len() ==> #[trigger] q.drop_first()[j] == q[j + 1]);
        lemma_mine_none(q.drop_first(), id);
    }
}

proof fn lemma_mine_has(q: Seq<RrosTimer>, x: int, id: u32)
    requires
        0 <= x < q.len(),
        q[x].clock == id,
    ensures
        exists|p: int| 0 <= p < mine(q, id).len() && #[trigger] mine(q, id)[p] == q[x],
    decreases q.len(),
{
    if x == 0 {
        assert(mine(q, id)[0] == q[0]);
    } else {
        let r = q.drop_first();
        assert(r[x - 1] == q[x]);
        lemma_mine_has(r, x - 1, id);
        let p = choose|p: int| 0 <= p < mine(r, id).len() && #[trigger] mine(r, id)[p] == r[x - 1];
        if q[0].clock == id {
            assert(mine(q, id)[p + 1] == mine(r, id)[p]);
        } else {
            assert(mine(q, id)[p] == mine(r, id)[p]);
        }
    }
}

/// The tick counters of a periodic timer `t` whose dates were shifted, for
/// a clock reading `now`: caught up when the timer is at least one period
/// late, moved back when a backward shift left an already fired timer at
/// least one period early.
pub open spec fn readjust_ticks(t: RrosTimer, delta: int, now: int, g: int) -> RrosTimer {
    let diff = now - (t.date + g);
    let period = t.interval as int;
    if diff >= period {
        let ticks = t.periodic_ticks + diff / period;
        RrosTimer {
            periodic_ticks: (if ticks > u64::MAX { u64::MAX as int } else { ticks }) as u64,
            ..t
        }
    } else if delta < 0 && has_bit(t.status, RROS_TIMER_FIRED) && diff + period <= 0 {
        let div = (-diff) / period;
        let ticks = t.periodic_ticks - div;
        let expect = t.pexpect_ticks - div;
        RrosTimer {
            periodic_ticks: (if ticks < 0 { 0 } else { ticks }) as u64,
            pexpect_ticks: (if expect < 0 { 0 } else { expect }) as u64,
            ..t
        }
    } else {
        t
    }
}

/// A timer of a clock whose time moved by `-delta`, read `now` afterwards,
/// with gravity `g`: its dates shifted by `-delta`; a periodic one then has
/// its tick counters reconciled and its date recomputed from them.
pub open spec fn adjusted(t: RrosTimer, delta: int, now: int, g: int) -> RrosTimer {
    let shifted = RrosTimer { date: clamp_i64(t.date - delta) as i64, ..t };
    if t.interval <= 0 {
        shifted
    } else {
        let t2 = readjust_ticks(
            RrosTimer { start_date: clamp_i64(t.start_date - delta) as i64, ..shifted },
            delta,
            now,
            g,
        );
        RrosTimer { date: clamp_i64(date_at(t2, t2.periodic_ticks as int, g)) as i64, ..t2 }
    }
}

/// Shifts the detached timer `timer` of `clock` by `-delta` and queues it
/// in `tq` again; `now` is the clock's reading.
pub fn adjust_timer(
    clock: &RrosClock,
    timer: RrosTimer,
    tq: &mut RrosTimerbase,
    delta: i64,
    now: i64,
)
    requires
        old(tq).wf(),
        !contains_id(old(tq)@, timer.id),
    ensures
        final(tq).wf(),
        exists|pos: int|
            is_insert_pos(
                old(tq)@,
                adjusted(timer, delta as int, now as int, clock.gravity.kernel as int).date,
                pos,
            ) && final(tq)@ == #[trigger] old(tq)@.insert(
                pos,
                attached(adjusted(timer, delta as int, now as int, clock.gravity.kernel as int)),
            ),
{
    let g = clock.gravity.kernel;
    let mut t = timer;
    t.date = crate::timer::saturate_i64(t.date as i128 - delta as i128);
    if !t.is_periodic() {
        assert(t == adjusted(timer, delta as int, now as int, g as int));
        tq.enqueue(t);
        return;
    }
    let ghost shifted = t;
    t.start_date = crate::timer::saturate_i64(t.start_date as i128 - delta as i128);
    let period = t.interval as i128;
    let diff: i128 = now as i128 - t.get_expiry(g);
    if diff >= period {
        let div = (diff as u128 / period as u128) as i128;
        let ticks = t.periodic_ticks as i128 + div;
        t.periodic_ticks = if ticks > u64::MAX as i128 {
            u64::MAX
        } else {
            ticks as u64
        };
    } else if delta < 0 && t.status & RROS_TIMER_FIRED != 0 && diff + period <= 0 {
        let div = ((-diff) as u128 / period as u128) as i128;
        let ticks = t.periodic_ticks as i128 - div;
        let expect = t.pexpect_ticks as i128 - div;
        t.periodic_ticks = if ticks < 0 {
            0
        } else {
            ticks as u64
        };
        t.pexpect_ticks = if expect < 0 {
            0
        } else {
            expect as u64
        };
    }
    proof {
        let moved = RrosTimer { start_date: t.start_date, ..shifted };
        assert(moved == RrosTimer { start_date: clamp_i64(timer.start_date - delta) as i64, ..shifted });
        assert(t == readjust_ticks(moved, delta as int, now as int, g as int));
    }
    t.update_date(g);
    assert(t == adjusted(timer, delta as int, now as int, g as int));
    tq.enqueue(t);
}

/// Shifts by `-delta` every timer of `clock` queued in `base`, reconciling
/// periodic ones with the reading `now`. Timers of other clocks stay as
/// they are, in their order.
#[verifier::rlimit(60)]
pub fn adjust_timerbase(clock: &RrosClock, base: &mut RrosTimerbase, delta: i64, now: i64)
    requires
        old(base).wf(),
    ensures
        final(base).wf(),
        others(final(base)@, clock.id) == others(old(base)@, clock.id),
        final(base)@.len() == old(base)@.len(),
        forall|j: int|
            0 <= j < final(base)@.len() && (#[trigger] final(base)@[j]).clock == clock.id ==> exists|
                i: int,
            |
                0 <= i < old(base)@.len() && old(base)@[i].clock == clock.id && final(base)@[j]
                    == attached(
                    adjusted(
                        detached(#[trigger] old(base)@[i]),
                        delta as int,
                        now as int,
                        clock.gravity.kernel as int,
                    ),
                ),
        forall|i: int|
            0 <= i < old(base)@.len() && (#[trigger] old(base)@[i]).clock == clock.id ==> exists|
                j: int,
            |
                0 <= j < final(base)@.len() && #[trigger] final(base)@[j] == attached(
                    adjusted(
                        detached(old(base)@[i]),
                        delta as int,
                        now as int,
                        clock.gravity.kernel as int,
                    ),
                ),
{
    let ghost orig = base@;
    let ghost g = clock.gravity.kernel as int;
    let id = clock.id;
    let mut taken: Vec<RrosTimer> = Vec::new();
    let mut i: usize = 0;
    let ghost mut from_base: Seq<int> = Seq::new(orig.len(), |j: int| j);
    let ghost mut from_taken: Seq<int> = Seq::empty();
    assert(mine(orig, id).skip(0) =~= mine(orig, id));
    assert(mine(orig, id).take(0).map_values(|t: RrosTimer| detached(t)) =~= taken@);
    while i < base.len()
        invariant
            base.wf(),
            0 <= i <= base@.len(),
            forall|j: int| 0 <= j < i ==> (#[trigger] base@[j]).clock != id,
            others(base@, id) == others(orig, id),
            base@.len() == from_base.len(),
            taken@.len() == from_taken.len(),
            base@.len() + taken@.len() == orig.len(),
            forall|j: int|
                0 <= j < base@.len() ==> 0 <= #[trigger] from_base[j] < orig.len() && base@[j]
                    == orig[from_base[j]],
            forall|k: int|
                0 <= k < taken@.len() ==> 0 <= #[trigger] from_taken[k] < orig.len()
                    && orig[from_taken[k]].clock == id && taken@[k] == detached(orig[from_taken[k]]),
            forall|a: int, b: int| 0 <= a < b < taken@.len() ==> taken@[a].id != taken@[b].id,
            forall|k: int, j: int|
                0 <= k < taken@.len() && 0 <= j < base@.len() ==> taken@[k].id != base@[j].id,
            taken@.len() <= mine(orig, id).len(),
            mine(base@, id) == mine(orig, id).skip(taken@.len() as int),
            taken@ == mine(orig, id).take(taken@.len() as int).map_values(|t: RrosTimer| detached(t)),
        decreases base@.len() - i,
    {
        if base.get(i).unwrap().clock == id {
            let ghost q0 = base@;
            let ghost k0 = taken@;
            let ghost fb0 = from_base;
            let ghost ft0 = from_taken;
            let t = base.dequeue(i);
            proof {
                lemma_others_remove(q0, i as int, id);
                lemma_mine_remove(q0, i as int, id);
                let mo = mine(orig, id);
                let tl = k0.len() as int;
                assert(mo.skip(tl)[0] == mo[tl]);
                assert(mo.skip(tl).drop_first() =~= mo.skip(tl + 1));
                assert(mo.take(tl + 1).map_values(|t: RrosTimer| detached(t)) =~= mo.take(tl).map_values(
                    |t: RrosTimer| detached(t),
                ).push(detached(mo[tl])));
                from_taken = ft0.push(fb0[i as int]);
                from_base = fb0.remove(i as int);
            }
            taken.push(t);
            proof {
                assert forall|j: int| 0 <= j < i implies (#[trigger] base@[j]).clock != id by {
                    assert(base@[j] == q0[j]);
                }
                assert forall|j: int| 0 <= j < base@.len() implies 0 <= #[trigger] from_base[j]
                    < orig.len() && base@[j] == orig[from_base[j]] by {
                    if j < i {
                        assert(base@[j] == q0[j] && from_base[j] == fb0[j]);
                    } else {
                        assert(base@[j] == q0[j + 1] && from_base[j] == fb0[j + 1]);
                    }
                }
                assert forall|k: int| 0 <= k < taken@.len() implies 0 <= #[trigger] from_taken[k]
                    < orig.len() && orig[from_taken[k]].clock == id && taken@[k] == detached(
                    orig[from_taken[k]],
                ) by {
                    if k < k0.len() {
                        assert(taken@[k] == k0[k] && from_taken[k] == ft0[k]);
                    } else {
                        assert(from_taken[k] == fb0[i as int]);
                        assert(q0[i as int] == orig[fb0[i as int]]);
                    }
                }
                assert forall|a: int, b: int| 0 <= a < b < taken@.len() implies taken@[a].id
                    != taken@[b].id by {
                    if b == k0.len() {
                        assert(taken@[a] == k0[a]);
                    }
                }
                assert forall|k: int, j: int|
                    0 <= k < taken@.len() && 0 <= j < base@.len() implies taken@[k].id
                    != base@[j].id by {
                    let jj = if j < i {
                        j
                    } else {
                        j + 1
                    };
                    assert(base@[j] == q0[jj]);
                }
            }
        } else {
            i = i + 1;
        }
    }
    proof {
        lemma_mine_none(base@, id);
        assert(taken@.len() == mine(orig, id).len());
        assert(mine(orig, id).take(taken@.len() as int) =~= mine(orig, id));
    }
    let ghost mid = base@;
    let mut k: usize = 0;
    while k < taken.len()
        invariant
            base.wf(),
            0 <= k <= taken@.len(),
            others(base@, id) == others(orig, id),
            base@.len() == mid.len() + k,
            mid.len() + taken@.len() == orig.len(),
            forall|j: int| 0 <= j < base@.len() && (#[trigger] base@[j]).clock == id ==> exists|m: int|
                0 <= m < k && base@[j] == attached(adjusted(#[trigger] taken@[m], delta as int, now as int, g)),
            forall|m: int| 0 <= m < k ==> exists|j: int|
                0 <= j < base@.len() && #[trigger] base@[j] == attached(adjusted(#[trigger] taken@[m], delta as int, now as int, g)),
            taken@ == mine(orig, id).map_values(|t: RrosTimer| detached(t)),
            forall|m: int| k <= m < taken@.len() ==> !contains_id(base@, (#[trigger] taken@[m]).id),
            forall|a: int, b: int| 0 <= a < b < taken@.len() ==> taken@[a].id != taken@[b].id,
            taken@.len() == from_taken.len(),
            forall|kk: int|
                0 <= kk < taken@.len() ==> 0 <= #[trigger] from_taken[kk] < orig.len()
                    && orig[from_taken[kk]].clock == id && taken@[kk] == detached(orig[from_taken[kk]]),
            g == clock.gravity.kernel as int,
        decreases taken@.len() - k,
    {
        let ghost q0 = base@;
        let t = taken[k];
        proof {
            assert(taken@[k as int] == t);
        }
        adjust_timer(clock, t, base, delta, now);
        proof {
            let a = adjusted(t, delta as int, now as int, g);
            let pos = choose|pos: int|
                is_insert_pos(
                    q0,
                    adjusted(t, delta as int, now as int, clock.gravity.kernel as int).date,
                    pos,
                ) && base@ == #[trigger] q0.insert(
                    pos,
                    attached(adjusted(t, delta as int, now as int, clock.gravity.kernel as int)),
                );
            assert(from_taken[k as int] < orig.len());
            assert(attached(a).clock == id);
            lemma_others_insert(q0, pos, attached(a), id);
            assert forall|j: int| 0 <= j < base@.len() && (#[trigger] base@[j]).clock == id implies exists|m: int|
                0 <= m < k + 1 && base@[j] == attached(adjusted(#[trigger] taken@[m], delta as int, now as int, g)) by {
                if j == pos {
                    assert(base@[j] == attached(adjusted(taken@[k as int], delta as int, now as int, g)));
                } else if j < pos {
                    assert(base@[j] == q0[j]);
                } else {
                    assert(base@[j] == q0[j - 1]);
                }
            }
            assert forall|m: int| 0 <= m < k + 1 implies exists|j: int|
                0 <= j < base@.len() && #[trigger] base@[j] == attached(adjusted(#[trigger] taken@[m], delta as int, now as int, g)) by {
                if m == k {
                    assert(base@[pos] == attached(a));
                } else {
                    let j = choose|j: int| 0 <= j < q0.len() && #[trigger] q0[j] == attached(adjusted(#[trigger] taken@[m], delta as int, now as int, g));
                    if j < pos { assert(base@[j] == q0[j]); } else { assert(base@[j + 1] == q0[j]); }
                }
            }
            assert forall|m: int| k + 1 <= m < taken@.len() implies !contains_id(base@, (#[trigger] taken@[m]).id) by {
                assert forall|j: int| 0 <= j < base@.len() implies base@[j].id != taken@[m].id by {
                    if j < pos { assert(base@[j] == q0[j]); } else if j > pos { assert(base@[j] == q0[j - 1]); }
                }
            }
        }
        k = k + 1;
    }
    proof {
        assert forall|j: int| 0 <= j < base@.len() && (#[trigger] base@[j]).clock == id implies exists|i: int|
            0 <= i < orig.len() && orig[i].clock == id && base@[j] == attached(adjusted(detached(#[trigger] orig[i]), delta as int, now as int, g)) by {
            let m = choose|m: int| 0 <= m < taken@.len() && base@[j] == attached(adjusted(#[trigger] taken@[m], delta as int, now as int, g));
            assert(from_taken[m] < orig.len());
            assert(orig[from_taken[m]].clock == id);
        }
        assert forall|x: int| 0 <= x < orig.len() && (#[trigger] orig[x]).clock == id implies exists|j: int|
            0 <= j < base@.len() && #[trigger] base@[j] == attached(adjusted(detached(orig[x]), delta as int, now as int, g)) by {
            lemma_mine_has(orig, x, id);
            let p = choose|p: int| 0 <= p < mine(orig, id).len() && #[trigger] mine(orig, id)[p] == orig[x];
            assert(taken@[p] == detached(orig[x]));
            let j = choose|j: int| 0 <= j < base@.len() && #[trigger] base@[j] == attached(adjusted(#[trigger] taken@[p], delta as int, now as int, g));
        }
    }
}

} // verus!

verus! {

/// `q1` is the queue `q0` once every timer of clock `id` in it moved by
/// `-delta` against the reading `now` with gravity `g`: well-formed, of the
/// same length, with the timers of other clocks kept in their order, every
/// timer of clock `id` the adjusted form of one of `q0`, and every timer of
/// clock `id` of `q0` present in adjusted form.
pub open spec fn base_adjusted(
    q0: Seq<RrosTimer>,
    q1: Seq<RrosTimer>,
    id: u32,
    delta: int,
    now: int,
    g: int,
) -> bool {
    &&& crate::base::queue_wf(q1)
    &&& others(q1, id) == others(q0, id)
    &&& q1.len() == q0.len()
    &&& forall|j: int|
        0 <= j < q1.len() && (#[trigger] q1[j]).clock == id ==> exists|i: int|
            0 <= i < q0.len() && q0[i].clock == id && q1[j] == attached(
                adjusted(detached(#[trigger] q0[i]), delta, now, g),
            )
    &&& forall|i: int|
        0 <= i < q0.len() && (#[trigger] q0[i]).clock == id ==> exists|j: int|
            0 <= j < q1.len() && #[trigger] q1[j] == attached(adjusted(detached(q0[i]), delta, now, g))
}

/// The shot a CPU is asked for through the master clock `master` once the
/// timers in its base moved.
pub open spec fn adjust_shot_spec(master: RrosClock, q: Seq<RrosTimer>, cpu: int, this_cpu: int) -> Shot {
    if cpu == this_cpu {
        crate::dispatch::local_shot_spec(master, q)
    } else if master.ops.program_remote_shot {
        Shot::Remote(cpu as u32)
    } else {
        Shot::Nothing
    }
}

/// Shifts by `-delta` every timer of `clock` in the base of every CPU, then
/// has each CPU program its next shot through the master clock `master`:
/// the calling CPU `this_cpu` directly, the others by interrupt. Returns the
/// shot of each CPU.
pub fn rros_adjust_timers(
    clock: &RrosClock,
    master: &RrosClock,
    bases: &mut Vec<RrosTimerbase>,
    delta: i64,
    now: i64,
    this_cpu: u32,
) -> (r: Vec<Shot>)
    requires
        old(bases)@.len() <= u32::MAX,
        forall|c: int| 0 <= c < old(bases)@.len() ==> (#[trigger] old(bases)@[c]).wf(),
    ensures
        final(bases)@.len() == old(bases)@.len(),
        r@.len() == old(bases)@.len(),
        forall|c: int|
            0 <= c < final(bases)@.len() ==> {
                &&& base_adjusted(
                    old(bases)@[c]@,
                    (#[trigger] final(bases)@[c])@,
                    clock.id,
                    delta as int,
                    now as int,
                    clock.gravity.kernel as int,
                )
                &&& r@[c] == adjust_shot_spec(*master, final(bases)@[c]@, c, this_cpu as int)
            },
{
    let ghost orig = bases@;
    let mut shots: Vec<Shot> = Vec::new();
    let mut cpu: usize = 0;
    while cpu < bases.len()
        invariant
            bases@.len() == orig.len() <= u32::MAX,
            0 <= cpu <= bases@.len(),
            shots@.len() == cpu,
            forall|c: int| cpu <= c < bases@.len() ==> #[trigger] bases@[c] == orig[c],
            forall|c: int|
                0 <= c < cpu ==> {
                    &&& base_adjusted(
                        orig[c]@,
                        (#[trigger] bases@[c])@,
                        clock.id,
                        delta as int,
                        now as int,
                        clock.gravity.kernel as int,
                    )
                    &&& shots@[c] == adjust_shot_spec(*master, bases@[c]@, c, this_cpu as int)
                },
            forall|c: int| 0 <= c < orig.len() ==> (#[trigger] orig[c]).wf(),
        decreases bases@.len() - cpu,
    {
        assert(bases@[cpu as int] == orig[cpu as int]);
        adjust_timerbase(clock, &mut bases[cpu], delta, now);
        let shot = if cpu as u32 == this_cpu {
            master.program_local_shot(&bases[cpu])
        } else {
            master.program_remote_shot(cpu as u32)
        };
        shots.push(shot);
        cpu = cpu + 1;
    }
    shots
}

/// `t` once deactivated: detached and no longer running.
pub open spec fn stopped(t: RrosTimer) -> RrosTimer {
    RrosTimer { status: (t.status | RROS_TIMER_DEQUEUED) & !RROS_TIMER_RUNNING, ..t }
}

/// The queues of `bs` joined in CPU order, each timer deactivated.
pub open spec fn drained(bs: Seq<RrosTimerbase>) -> Seq<RrosTimer>
    decreases bs.len(),
{
    if bs.len() == 0 {
        Seq::empty()
    } else {
        drained(bs.drop_last()) + bs.last()@.map_values(|t: RrosTimer| stopped(t))
    }
}

/// Drains the base of every CPU, deactivating each timer. Used at teardown.
/// Returns the timers of the old queues in CPU and queue order, detached
/// and no longer running.
pub fn rros_stop_timers(clock: &RrosClock, bases: &mut Vec<RrosTimerbase>) -> (r: Vec<RrosTimer>)
    requires
        forall|c: int| 0 <= c < old(bases)@.len() ==> (#[trigger] old(bases)@[c]).wf(),
    ensures
        final(bases)@.len() == old(bases)@.len(),
        forall|c: int|
            0 <= c < final(bases)@.len() ==> (#[trigger] final(bases)@[c]).wf() && final(bases)@[c]@.len()
                == 0,
        r@ == drained(old(bases)@),
        forall|k: int|
            0 <= k < r@.len() ==> has_bit((#[trigger] r@[k]).status, RROS_TIMER_DEQUEUED) && !has_bit(
                r@[k].status,
                RROS_TIMER_RUNNING,
            ),
{
    let ghost orig = bases@;
    let mut out: Vec<RrosTimer> = Vec::new();
    let mut cpu: usize = 0;
    assert(orig.take(0) =~= Seq::<RrosTimerbase>::empty());
    while cpu < bases.len()
        invariant
            bases@.len() == orig.len(),
            0 <= cpu <= bases@.len(),
            forall|c: int| cpu <= c < bases@.len() ==> #[trigger] bases@[c] == orig[c],
            forall|c: int| 0 <= c < cpu ==> (#[trigger] bases@[c]).wf() && bases@[c]@.len() == 0,
            forall|c: int| 0 <= c < orig.len() ==> (#[trigger] orig[c]).wf(),
            out@ == drained(orig.take(cpu as int)),
            forall|k: int|
                0 <= k < out@.len() ==> has_bit((#[trigger] out@[k]).status, RROS_TIMER_DEQUEUED)
                    && !has_bit(out@[k].status, RROS_TIMER_RUNNING),
        decreases bases@.len() - cpu,
    {
        assert(bases@[cpu as int] == orig[cpu as int]);
        let ghost q = orig[cpu as int]@;
        let ghost prefix = out@;
        let ghost mut p: int = 0;
        let base = &mut bases[cpu];
        assert(q.take(0).map_values(|t: RrosTimer| stopped(t)) =~= Seq::<RrosTimer>::empty());
        assert(prefix + Seq::<RrosTimer>::empty() =~= prefix);
        assert(q.skip(0) =~= q);
        while !base.is_empty()
            invariant
                base.wf(),
                0 <= p <= q.len(),
                base@ == q.skip(p),
                out@ == prefix + q.take(p).map_values(|t: RrosTimer| stopped(t)),
                forall|k: int|
                    0 <= k < out@.len() ==> has_bit((#[trigger] out@[k]).status, RROS_TIMER_DEQUEUED)
                        && !has_bit(out@[k].status, RROS_TIMER_RUNNING),
            decreases base@.len(),
        {
            let t = deactivate(base);
            proof {
                assert(base@ =~= q.skip(p + 1));
                assert(q.take(p + 1).map_values(|t: RrosTimer| stopped(t)) =~= q.take(p).map_values(
                    |t: RrosTimer| stopped(t),
                ).push(stopped(q[p])));
                p = p + 1;
            }
            out.push(t);
            assert(out@ =~= prefix + q.take(p).map_values(|t: RrosTimer| stopped(t)));
        }
        proof {
            assert(q.take(p) =~= q);
            assert(orig.take(cpu + 1).drop_last() =~= orig.take(cpu as int));
        }
        cpu = cpu + 1;
    }
    assert(orig.take(orig.len() as int) =~= orig);
    out
}

proof fn lemma_stopped(s: u32)
    ensures
        ((s | RROS_TIMER_DEQUEUED) & !RROS_TIMER_RUNNING) & RROS_TIMER_DEQUEUED != 0,
        ((s | RROS_TIMER_DEQUEUED) & !RROS_TIMER_RUNNING) & RROS_TIMER_RUNNING == 0,
{
    assert(((s | 0x4u32) & !0x10u32) & 0x4u32 != 0) by (bit_vector);
    assert(((s | 0x4u32) & !0x10u32) & 0x10u32 == 0) by (bit_vector);
}

/// Takes the first timer out of `base` and marks it stopped.
pub fn deactivate(base: &mut RrosTimerbase) -> (r: RrosTimer)
    requires
        old(base).wf(),
        old(base)@.len() > 0,
    ensures
        final(base).wf(),
        final(base)@ == old(base)@.drop_first(),
        r == (RrosTimer {
            status: (old(base)@[0].status | RROS_TIMER_DEQUEUED) & !RROS_TIMER_RUNNING,
            ..old(base)@[0]
        }),
        has_bit(r.status, RROS_TIMER_DEQUEUED),
        !has_bit(r.status, RROS_TIMER_RUNNING),
{
    let mut t = base.pop_head();
    proof {
        lemma_stopped(old(base)@[0].status);
    }
    t.clear_status(RROS_TIMER_RUNNING);
    t
}

/// Shifts `a - b` to the range of a date.
pub fn sub_saturating(a: i64, b: i64) -> (r: i64)
    ensures
        r == clamp_i64(a - b),
{
    crate::timer::saturate_i64(a as i128 - b as i128)
}

/// What adjusting `c0` (into `c1`) does with the readings `wall`, `mono`
/// and `now`, bases `b0` becoming `b1` and shots `r` asked for.
pub open spec fn adjust_outcome(
    c0: RrosClock,
    c1: RrosClock,
    master: RrosClock,
    b0: Seq<RrosTimerbase>,
    b1: Seq<RrosTimerbase>,
    r: Seq<Shot>,
    this_cpu: u32,
    wall: i64,
    mono: i64,
    now: i64,
) -> bool {
    let offset = clamp_i64(wall as int - mono as int);
    &&& c1 == (RrosClock { offset: offset as i64, ..c0 })
    &&& b1.len() == b0.len()
    &&& r.len() == b0.len()
    &&& forall|c: int|
        0 <= c < b1.len() ==> {
            &&& base_adjusted(
                b0[c]@,
                (#[trigger] b1[c])@,
                c0.id,
                clamp_i64(offset - c0.offset),
                now as int,
                c0.gravity.kernel as int,
            )
            &&& r[c] == adjust_shot_spec(master, b1[c]@, c, this_cpu as int)
        }
}

impl RrosClock {
    /// Reconciles a clock that supports adjusting with the readings `wall`
    /// of the wall clock and `mono` of the monotonic one: the offset becomes
    /// `wall - mono`, and every timer of the clock moves by the change of
    /// the offset, `now` being the clock's reading; shots are programmed
    /// through `master`. Any other clock is left as it is, and no shot is
    /// asked for.
    pub fn adjust_to(
        &mut self,
        master: &RrosClock,
        wall: i64,
        mono: i64,
        now: i64,
        bases: &mut Vec<RrosTimerbase>,
        this_cpu: u32,
    ) -> (r: Vec<Shot>)
        requires
            old(bases)@.len() <= u32::MAX,
            forall|c: int| 0 <= c < old(bases)@.len() ==> (#[trigger] old(bases)@[c]).wf(),
        ensures
            !old(self).ops.adjust ==> *final(self) == *old(self) && final(bases)@ == old(bases)@
                && r@.len() == 0,
            old(self).ops.adjust ==> {
                &&& *final(self) == (RrosClock { offset: clamp_i64(wall as int - mono as int) as i64, ..*old(self) })
                &&& final(bases)@.len() == old(bases)@.len()
                &&& r@.len() == old(bases)@.len()
                &&& forall|c: int|
                    0 <= c < final(bases)@.len() ==> {
                        &&& base_adjusted(
                            old(bases)@[c]@,
                            (#[trigger] final(bases)@[c])@,
                            old(self).id,
                            clamp_i64(clamp_i64(wall as int - mono as int) - old(self).offset),
                            now as int,
                            old(self).gravity.kernel as int,
                        )
                        &&& r@[c] == adjust_shot_spec(*master, final(bases)@[c]@, c, this_cpu as int)
                    }
            },
    {
        if !self.ops.adjust {
            return Vec::new();
        }
        let old_offset = self.offset;
        self.offset = sub_saturating(wall, mono);
        let delta = sub_saturating(self.offset, old_offset);
        rros_adjust_timers(self, master, bases, delta, now, this_cpu)
    }

    /// Reconciles the clock with its time sources, as `adjust_to` does with
    /// their current readings.
    pub fn adjust<S: crate::clock::TimeSource>(
        &mut self,
        master: &RrosClock,
        src: &mut S,
        bases: &mut Vec<RrosTimerbase>,
        this_cpu: u32,
    ) -> (r: Vec<Shot>)
        requires
            old(bases)@.len() <= u32::MAX,
            forall|c: int| 0 <= c < old(bases)@.len() ==> (#[trigger] old(bases)@[c]).wf(),
        ensures
            !old(self).ops.adjust ==> *final(self) == *old(self) && final(bases)@ == old(bases)@
                && r@.len() == 0,
            old(self).ops.adjust ==> exists|wall: i64, mono: i64, now: i64|
                #[trigger] adjust_outcome(
                    *old(self),
                    *final(self),
                    *master,
                    old(bases)@,
                    final(bases)@,
                    r@,
                    this_cpu,
                    wall,
                    mono,
                    now,
                ),
    {
        if !self.ops.adjust {
            return Vec::new();
        }
        let wall = src.real_now();
        let mono = src.mono_now();
        let now = self.read(src);
        let ghost b0 = bases@;
        let r = self.adjust_to(master, wall, mono, now, bases, this_cpu);
        assert(adjust_outcome(*old(self), *self, *master, b0, bases@, r@, this_cpu, wall, mono, now));
        r
    }
}

} // verus!
