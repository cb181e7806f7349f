use vstd::prelude::*;

verus! {

/// The timer fired at least once since it was last started.
pub const RROS_TIMER_FIRED: u32 = 0x1;

/// The timer re-arms itself every `interval` nanoseconds.
pub const RROS_TIMER_PERIODIC: u32 = 0x2;

/// The timer is detached from every timer base.
pub const RROS_TIMER_DEQUEUED: u32 = 0x4;

/// The timer was destroyed by its owner.
pub const RROS_TIMER_KILLED: u32 = 0x8;

/// The timer was started and not stopped since.
pub const RROS_TIMER_RUNNING: u32 = 0x10;

/// Status bits that decide whether a fired timer is armed again.
pub const RROS_TIMER_REARM_MASK: u32 = 0x1e;

/// Value of the masked status bits for which a fired timer is armed again:
/// periodic, detached and running, not killed.
pub const RROS_TIMER_REARM_WANT: u32 = 0x16;

pub open spec fn has_bit(status: u32, bit: u32) -> bool {
    status & bit != 0
}

/// Smallest and largest value of a nanosecond date.
pub open spec fn clamp_i64(x: int) -> int {
    if x < i64::MIN {
        i64::MIN as int
    } else if x > i64::MAX {
        i64::MAX as int
    } else {
        x
    }
}

/// Saturates an intermediate result to the range of a nanosecond date.
pub fn saturate_i64(x: i128) -> (r: i64)
    ensures
        r == clamp_i64(x as int),
{
    if x < i64::MIN as i128 {
        i64::MIN
    } else if x > i64::MAX as i128 {
        i64::MAX
    } else {
        x as i64
    }
}

/// One scheduled event of a clock.
#[derive(Clone, Copy, Debug, PartialEq, Eq, Structural)]
pub struct RrosTimer {
    /// Identity of the timer, unique among the timers of a system.
    pub id: u64,
    /// Absolute firing date, in the domain of the timer's clock.
    pub date: i64,
    /// Date from which the periodic shots are counted.
    pub start_date: i64,
    /// Period in nanoseconds; 0 for a one-shot timer.
    pub interval: i64,
    /// Number of periods elapsed since `start_date`.
    pub periodic_ticks: u64,
    /// Number of periods the owner expects to have elapsed.
    pub pexpect_ticks: u64,
    /// Set of `RROS_TIMER_*` bits.
    pub status: u32,
    /// Identity of the clock whose domain `date` is in.
    pub clock: u32,
    /// CPU of the run-queue that owns the timer.
    pub cpu: u32,
    /// Number of times the timer fired.
    pub fired: u64,
}

/// Date of the `k`-th period of `t`, less the gravity `g`.
pub open spec fn date_at(t: RrosTimer, k: int, g: int) -> int {
    t.start_date + k * t.interval - g
}

/// Whether `k` is the first tick count after `t.periodic_ticks` whose date
/// is not before `now`.
pub open spec fn is_catch_up(t: RrosTimer, now: int, g: int, k: int) -> bool {
    &&& k > t.periodic_ticks
    &&& date_at(t, k, g) >= now
    &&& (k == t.periodic_ticks + 1 || date_at(t, k - 1, g) < now)
}

/// The first tick count after `t.periodic_ticks` whose date, less the
/// gravity `g`, is not before `now`.
pub open spec fn catch_up_ticks(t: RrosTimer, now: int, g: int) -> int {
    let first = date_at(t, t.periodic_ticks as int + 1, g);
    if first >= now {
        t.periodic_ticks as int + 1
    } else {
        t.periodic_ticks as int + 1 + (now - first + t.interval as int - 1) / (t.interval as int)
    }
}

/// Whether a periodic timer can be caught up within the range of its tick
/// counter and of a date.
pub open spec fn can_catch_up(t: RrosTimer, now: int, g: int) -> bool {
    &&& t.interval > 0
    &&& catch_up_ticks(t, now, g) <= u64::MAX
    &&& date_at(t, catch_up_ticks(t, now, g), g) <= i64::MAX
}

/// Whether a fired timer goes back into a queue.
pub open spec fn needs_enqueuing_spec(t: RrosTimer) -> bool {
    t.status & RROS_TIMER_REARM_MASK == RROS_TIMER_REARM_WANT
}

proof fn lemma_signed_product_bound(k: int, i: int)
    requires
        0 <= k <= u64::MAX,
        i64::MIN <= i <= i64::MAX,
    ensures
        -u64::MAX * 0x8000_0000_0000_0000 <= k * i <= u64::MAX * 0x8000_0000_0000_0000,
{
    if i >= 0 {
        assert(0 <= k * i <= u64::MAX * 0x8000_0000_0000_0000) by (nonlinear_arith)
            requires
                0 <= k <= u64::MAX,
                0 <= i <= 0x8000_0000_0000_0000,
        ;
    } else {
        assert(-u64::MAX * 0x8000_0000_0000_0000 <= k * i <= 0) by (nonlinear_arith)
            requires
                0 <= k <= u64::MAX,
                -0x8000_0000_0000_0000 <= i < 0,
        ;
    }
}

proof fn lemma_date_at_monotonic(t: RrosTimer, a: int, b: int, g: int)
    requires
        t.interval > 0,
        a <= b,
    ensures
        date_at(t, a, g) <= date_at(t, b, g),
{
    assert(a * t.interval <= b * t.interval) by (nonlinear_arith)
        requires
            t.interval > 0,
            a <= b,
    ;
}

/// At most one tick count is the catch-up point of a periodic timer.
proof fn lemma_catch_up_unique(t: RrosTimer, now: int, g: int, a: int, b: int)
    requires
        t.interval > 0,
        is_catch_up(t, now, g, a),
        is_catch_up(t, now, g, b),
    ensures
        a == b,
{
    if a < b {
        lemma_date_at_monotonic(t, a, b - 1, g);
    } else if b < a {
        lemma_date_at_monotonic(t, b, a - 1, g);
    }
}

proof fn lemma_catch_up(first: int, d: int, i: int, q: int)
    requires
        d > 0,
        i > 0,
        q == (d + i - 1) / i,
    ensures
        q >= 1,
        first + q * i >= first + d,
        first + (q - 1) * i < first + d,
        q <= d,
{
    assert(q * i <= d + i - 1 && q * i > d - 1) by (nonlinear_arith)
        requires
            d > 0,
            i > 0,
            q == (d + i - 1) / i,
    ;
    assert(q >= 1 && q <= d) by (nonlinear_arith)
        requires
            d > 0,
            i > 0,
            q * i <= d + i - 1,
            q * i > d - 1,
    ;
    assert((q - 1) * i == q * i - i) by (nonlinear_arith);
}

proof fn lemma_product_bound(k: int, i: int)
    requires
        0 <= k <= u64::MAX,
        0 < i <= i64::MAX,
    ensures
        0 < k * i + i <= (u64::MAX + 1) * i64::MAX,
        (k + 1) * i == k * i + i,
        k * i >= 0,
{
    assert((k + 1) * i == k * i + i) by (nonlinear_arith);
    assert(k * i <= u64::MAX * i) by (nonlinear_arith)
        requires
            0 <= k <= u64::MAX,
            0 < i,
    ;
    assert(u64::MAX * i <= u64::MAX * i64::MAX) by (nonlinear_arith)
        requires
            0 < i <= i64::MAX,
    ;
    assert(k * i >= 0) by (nonlinear_arith)
        requires
            0 <= k,
            0 < i,
    ;
}

impl RrosTimer {
    pub fn get_date(&self) -> (r: i64)
        ensures
            r == self.date,
    {
        self.date
    }

    pub fn is_periodic(&self) -> (r: bool)
        ensures
            r == (self.interval > 0),
    {
        self.interval > 0
    }

    /// Whether the timer belongs to the run-queue of `cpu`.
    pub fn on_rq(&self, cpu: u32) -> (r: bool)
        ensures
            r == (self.cpu == cpu),
    {
        self.cpu == cpu
    }

    pub fn add_status(&mut self, bits: u32)
        ensures
            *final(self) == (RrosTimer { status: old(self).status | bits, ..*old(self) }),
    {
        self.status = self.status | bits;
    }

    pub fn clear_status(&mut self, bits: u32)
        ensures
            *final(self) == (RrosTimer { status: old(self).status & !bits, ..*old(self) }),
    {
        self.status = self.status & !bits;
    }

    /// Counts one more shot of the timer.
    pub fn account_fired(&mut self)
        ensures
            *final(self) == (RrosTimer {
                fired: if old(self).fired < u64::MAX { (old(self).fired + 1) as u64 } else { old(self).fired },
                ..*old(self)
            }),
    {
        if self.fired < u64::MAX {
            self.fired = self.fired + 1;
        }
    }

    /// The date the timer is due at, gravity `g` not deducted.
    pub fn get_expiry(&self, g: i64) -> (r: i128)
        ensures
            r == self.date + g,
    {
        self.date as i128 + g as i128
    }

    /// Whether a timer that just fired is to be queued again: periodic,
    /// detached, running and not killed.
    pub fn needs_enqueuing(&self) -> (r: bool)
        ensures
            r == needs_enqueuing_spec(*self),
    {
        self.status & RROS_TIMER_REARM_MASK == RROS_TIMER_REARM_WANT
    }

    /// Recomputes the date from the start date and the tick count, less the
    /// gravity `g`, saturated to the range of a date.
    pub fn update_date(&mut self, g: i64)
        ensures
            *final(self) == (RrosTimer {
                date: clamp_i64(date_at(*old(self), old(self).periodic_ticks as int, g as int)) as i64,
                ..*old(self)
            }),
    {
        let k = self.periodic_ticks as i128;
        let i = self.interval as i128;
        proof {
            lemma_signed_product_bound(k as int, i as int);
        }
        let p = k * i;
        if p > 0x1_0000_0000_0000_0000_0000 {
            self.date = i64::MAX;
        } else if p < -0x1_0000_0000_0000_0000_0000 {
            self.date = i64::MIN;
        } else {
            self.date = saturate_i64(self.start_date as i128 + p - g as i128);
        }
    }

    /// Moves a periodic timer to its first period whose date, less the
    /// gravity `g`, is not before `now`, and sets its date there. `None`
    /// where the timer is not periodic, or where that period or its date
    /// lies beyond the range of the counters.
    pub fn catch_up(&self, now: i64, g: i64) -> (r: Option<RrosTimer>)
        ensures
            r is Some <==> can_catch_up(*self, now as int, g as int),
            r is Some ==> {
                let k = catch_up_ticks(*self, now as int, g as int);
                &&& r->Some_0 == (RrosTimer {
                    periodic_ticks: k as u64,
                    date: date_at(*self, k, g as int) as i64,
                    ..*self
                })
                &&& is_catch_up(*self, now as int, g as int, k)
            },
    {
        if self.interval <= 0 {
            return None;
        }
        if self.periodic_ticks == u64::MAX {
            proof {
                assert forall|j: int| #[trigger] is_catch_up(*self, now as int, g as int, j) implies j
                    > u64::MAX by {}
            }
            return None;
        }
        let i = self.interval as i128;
        let k1 = self.periodic_ticks as i128 + 1;
        proof {
            lemma_product_bound(self.periodic_ticks as int, i as int);
        }
        let first = self.start_date as i128 + k1 * i - g as i128;
        let k: i128 = if first >= now as i128 {
            k1
        } else {
            let d = now as i128 - first;
            proof {
                assert(d > 0);
                assert(d <= 2 * i64::MAX - i64::MIN);
            }
            let q = ((d + i - 1) as u128 / i as u128) as i128;
            proof {
                lemma_catch_up(first as int, d as int, i as int, q as int);
                let (kk1, qq, ii) = (k1 as int, q as int, i as int);
                assert((kk1 + qq) * ii == kk1 * ii + qq * ii) by (nonlinear_arith);
                assert((kk1 + qq - 1) * ii == kk1 * ii + (qq - 1) * ii) by (nonlinear_arith);
                assert(is_catch_up(*self, now as int, g as int, kk1 + qq));
            }
            k1 + q
        };
        proof {
            assert(is_catch_up(*self, now as int, g as int, k as int));
            assert forall|j: int| #[trigger] is_catch_up(*self, now as int, g as int, j) implies j
                == k by {
                lemma_catch_up_unique(*self, now as int, g as int, j, k as int);
            }
        }
        if k > u64::MAX as i128 {
            return None;
        }
        proof {
            lemma_product_bound(k as int, i as int);
        }
        let date = self.start_date as i128 + k * i - g as i128;
        if date > i64::MAX as i128 {
            proof {
                assert(date_at(*self, k as int, g as int) > i64::MAX);
            }
            return None;
        }
        proof {
            assert(k * i == (k - 1) * i + i) by (nonlinear_arith);
            assert(date >= now);
        }
        Some(RrosTimer { periodic_ticks: k as u64, date: date as i64, ..*self })
    }
}

} // verus!

verus! {

/// A periodic timer that sits on its period grid and is re-armed no later
/// than one period after its date moves to the next point of the grid: one
/// period later, with no period skipped.
pub proof fn lemma_periodic_phase(t: RrosTimer, now: int, g: int, k: int)
    requires
        t.interval > 0,
        t.date == date_at(t, t.periodic_ticks as int, g),
        now <= date_at(t, t.periodic_ticks + 1, g),
        is_catch_up(t, now, g, k),
    ensures
        k == t.periodic_ticks + 1,
        date_at(t, k, g) == t.date + t.interval,
{
    if k != t.periodic_ticks + 1 {
        lemma_date_at_monotonic(t, t.periodic_ticks + 1, k - 1, g);
    }
    assert((t.periodic_ticks + 1) * t.interval == t.periodic_ticks * t.interval + t.interval)
        by (nonlinear_arith);
}

} // verus!
