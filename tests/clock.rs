use rros_clock::adjust::{adjust_timer, adjust_timerbase, deactivate, rros_adjust_timers, rros_stop_timers};
use rros_clock::base::RrosTimerbase;
use rros_clock::clock::{
    ClockError, ReadSource, RrosClock, RrosClockOps, Shot, TimeSource, RROS_MONO_CLOCK_ID,
    RROS_REALTIME_CLOCK_ID,
};
use rros_clock::dispatch::{
    do_clock_tick, fire_head, rearm, HandlerVerdict, RrosCoreTick, RrosRq, TimerHandler, RQ_TDEFER, RQ_TIMER, RQ_TPROXY,
};
use rros_clock::gravity::RrosClockGravity;
use rros_clock::init::{
    init_clock, rros_clock_init, rros_init_clock, rros_init_slave_clock, rros_mono_clock,
    rros_read_clock, rros_realtime_clock, ClockRegistry,
};
use rros_clock::timer::{
    saturate_i64, RrosTimer, RROS_TIMER_DEQUEUED, RROS_TIMER_FIRED, RROS_TIMER_KILLED, RROS_TIMER_PERIODIC,
    RROS_TIMER_RUNNING,
};

/// Time sources that read fixed values.
struct FixedTime {
    mono: i64,
    real: i64,
}

impl TimeSource for FixedTime {
    fn mono_now(&mut self) -> i64 {
        self.mono
    }

    fn real_now(&mut self) -> i64 {
        self.real
    }
}

/// Time sources whose monotonic reading advances by a step on each read.
struct SteppingTime {
    mono: i64,
    step: i64,
}

impl TimeSource for SteppingTime {
    fn mono_now(&mut self) -> i64 {
        let now = self.mono;
        self.mono += self.step;
        now
    }

    fn real_now(&mut self) -> i64 {
        0
    }
}

/// Handlers that log each shot with the time they were told it is.
struct Log {
    now: i64,
    fired: Vec<(u64, i64)>,
    verdict: HandlerVerdict,
}

impl TimerHandler for Log {
    fn handle(&mut self, timer: &RrosTimer) -> HandlerVerdict {
        self.fired.push((timer.id, self.now));
        self.verdict
    }
}

fn log(now: i64) -> Log {
    Log { now, fired: Vec::new(), verdict: HandlerVerdict::Keep }
}

fn one_shot(id: u64, date: i64, clock: u32, cpu: u32) -> RrosTimer {
    RrosTimer {
        id,
        date,
        start_date: date,
        interval: 0,
        periodic_ticks: 0,
        pexpect_ticks: 0,
        status: RROS_TIMER_RUNNING,
        clock,
        cpu,
        fired: 0,
    }
}

fn periodic(id: u64, start: i64, interval: i64, ticks: u64, clock: u32) -> RrosTimer {
    RrosTimer {
        id,
        date: start + ticks as i64 * interval,
        start_date: start,
        interval,
        periodic_ticks: ticks,
        pexpect_ticks: ticks,
        status: RROS_TIMER_PERIODIC | RROS_TIMER_RUNNING,
        clock,
        cpu: 0,
        fired: 0,
    }
}

fn dates(base: &RrosTimerbase) -> Vec<i64> {
    (0..base.len()).map(|i| base.get(i).unwrap().date).collect()
}

#[test]
fn one_shot_fire() {
    let mono = rros_mono_clock();
    let mut base = RrosTimerbase::new();
    base.enqueue(one_shot(1, 100, RROS_MONO_CLOCK_ID, 0));
    let mut rq = RrosRq::new(0, 99, false);
    let mut src = FixedTime { mono: 150, real: 0 };
    let mut handler = log(150);
    let out = do_clock_tick(&mono, &mut base, &mut rq, &mut src, &mut handler);
    assert_eq!(handler.fired, vec![(1, 150)]);
    assert!(base.is_empty());
    assert_eq!(out.shot, Shot::Local(None));
    assert_eq!(out.now, 150);
    assert!(!out.proxy_fired);
    assert_eq!(rq.local_flags & RQ_TIMER, 0);
}

#[test]
fn periodic_catch_up() {
    let mono = rros_mono_clock();
    let mut base = RrosTimerbase::new();
    base.enqueue(periodic(1, 0, 10, 0, RROS_MONO_CLOCK_ID));
    let mut rq = RrosRq::new(0, 99, false);
    let mut src = FixedTime { mono: 35, real: 0 };
    let mut handler = log(35);
    let out = do_clock_tick(&mono, &mut base, &mut rq, &mut src, &mut handler);
    assert_eq!(handler.fired.len(), 1);
    assert_eq!(base.len(), 1);
    let t = base.get(0).unwrap();
    assert_eq!(t.id, 1);
    assert_eq!(t.periodic_ticks, 4);
    assert_eq!(t.date, 40);
    assert_eq!(t.fired, 1);
    assert_ne!(t.status & RROS_TIMER_FIRED, 0);
    assert_eq!(t.status & RROS_TIMER_DEQUEUED, 0);
    assert_eq!(out.shot, Shot::Local(Some(40)));
}

#[test]
fn backward_realtime_jump() {
    let mono = rros_mono_clock();
    let mut realtime = rros_realtime_clock();
    realtime.offset = 1_000_000_000;
    let mut t = periodic(5, 0, 500_000_000, 6, RROS_REALTIME_CLOCK_ID);
    t.status |= RROS_TIMER_FIRED;
    assert_eq!(t.date, 3_000_000_000);
    let mut base = RrosTimerbase::new();
    base.enqueue(t);
    let mut bases = vec![base];
    // The wall clock now reads 2 s behind the monotonic one: the offset
    // moves from 1 s to -1 s.
    let shots = realtime.adjust_to(&mono, 1_000_000_000, 2_000_000_000, 3_000_000_000, &mut bases, 0);
    assert_eq!(realtime.offset, -1_000_000_000);
    let a = bases[0].get(0).unwrap();
    assert_eq!(a.start_date, 2_000_000_000);
    assert_eq!(a.periodic_ticks, 2);
    assert_eq!(a.pexpect_ticks, 2);
    // The shifted date, 5 s, is then recomputed from the tick count.
    assert_eq!(a.date, 2_000_000_000 + 2 * 500_000_000);
    assert_eq!(shots, vec![Shot::Local(Some(3_000_000_000))]);
}

#[test]
fn proxy_handoff() {
    let mono = rros_mono_clock();
    let mut base = RrosTimerbase::new();
    base.enqueue(one_shot(7, 50, RROS_MONO_CLOCK_ID, 0));
    let mut rq = RrosRq::new(0, 7, true);
    rq.add_local_flags(RQ_TDEFER);
    let mut src = FixedTime { mono: 60, real: 0 };
    let mut handler = log(60);
    let out = RrosCoreTick::core_tick(&mono, &mut base, &mut rq, &mut src, &mut handler);
    assert!(handler.fired.is_empty());
    assert_ne!(rq.local_flags & RQ_TPROXY, 0);
    assert_eq!(rq.local_flags & RQ_TDEFER, 0);
    assert_eq!(rq.local_flags & RQ_TIMER, 0);
    assert!(base.is_empty());
    assert!(out.tick.proxy_fired);
    assert_eq!(out.tick.shot, Shot::Local(None));
    assert!(out.notify_inband);
}

#[test]
fn proxy_handoff_without_root_task() {
    let mono = rros_mono_clock();
    let mut base = RrosTimerbase::new();
    base.enqueue(one_shot(7, 50, RROS_MONO_CLOCK_ID, 0));
    let mut rq = RrosRq::new(0, 7, false);
    let mut src = FixedTime { mono: 60, real: 0 };
    let out = RrosCoreTick::core_tick(&mono, &mut base, &mut rq, &mut src, &mut log(60));
    assert!(out.tick.proxy_fired);
    assert!(!out.notify_inband);
}

#[test]
fn cross_cpu_adjust() {
    let mono = rros_mono_clock();
    let realtime = rros_realtime_clock();
    let mut b0 = RrosTimerbase::new();
    b0.enqueue(one_shot(1, 1_000, RROS_REALTIME_CLOCK_ID, 0));
    let mut b1 = RrosTimerbase::new();
    b1.enqueue(one_shot(2, 2_000, RROS_REALTIME_CLOCK_ID, 1));
    let mut bases = vec![b0, b1];
    let shots = rros_adjust_timers(&realtime, &mono, &mut bases, 300, 0, 0);
    assert_eq!(bases[0].get(0).unwrap().date, 700);
    assert_eq!(bases[1].get(0).unwrap().date, 1_700);
    assert_eq!(shots, vec![Shot::Local(Some(700)), Shot::Remote(1)]);
}

#[test]
fn reset_gravity() {
    let mut clock = rros_mono_clock();
    clock.set_gravity(RrosClockGravity::new(1, 2, 3));
    assert_eq!((clock.get_gravity_irq(), clock.get_gravity_kernel(), clock.get_gravity_user()), (1, 2, 3));
    clock.reset_gravity();
    assert_eq!(clock.gravity, RrosClockGravity::new(200, 0, 0));
}

#[test]
fn reset_gravity_twice() {
    let mut once = rros_realtime_clock();
    once.set_gravity(RrosClockGravity::new(5, 6, 7));
    once.reset_gravity();
    let mut twice = rros_realtime_clock();
    twice.set_gravity(RrosClockGravity::new(5, 6, 7));
    twice.reset_gravity();
    twice.reset_gravity();
    assert_eq!(once.gravity, twice.gravity);
    assert_eq!(once.offset, twice.offset);
}

#[test]
fn gravity_accessors() {
    let mut g = RrosClockGravity::default_gravity();
    assert_eq!((g.get_irq(), g.get_kernel(), g.get_user()), (200, 0, 0));
    g.set_irq(9);
    g.set_kernel(8);
    g.set_user(7);
    assert_eq!(g, RrosClockGravity::new(9, 8, 7));
}

#[test]
fn gravity_ignored_without_the_operation() {
    let ops = RrosClockOps::new(ReadSource::Monotonic, false, false, false, false);
    let mut clock = RrosClock::new(4, "other", 1, RrosClockGravity::new(1, 1, 1), 0, ops, None, 4, 0);
    clock.set_gravity(RrosClockGravity::new(5, 5, 5));
    clock.reset_gravity();
    assert_eq!(clock.gravity, RrosClockGravity::new(1, 1, 1));
}

#[test]
fn dispatch_leaves_head_in_the_future() {
    let mono = rros_mono_clock();
    let mut base = RrosTimerbase::new();
    base.enqueue(one_shot(1, 10, RROS_MONO_CLOCK_ID, 0));
    base.enqueue(one_shot(2, 20, RROS_MONO_CLOCK_ID, 0));
    base.enqueue(one_shot(3, 30, RROS_MONO_CLOCK_ID, 0));
    let mut rq = RrosRq::new(0, 99, false);
    // Each reading is 5 ns later than the one before.
    let mut src = SteppingTime { mono: 15, step: 5 };
    let out = do_clock_tick(&mono, &mut base, &mut rq, &mut src, &mut log(0));
    assert!(base.is_empty() || base.get(0).unwrap().date > out.now);
    assert_eq!(out.now, 25);
    assert_eq!(dates(&base), vec![30]);
}

#[test]
fn queue_stays_ordered() {
    let mut base = RrosTimerbase::new();
    for (id, date) in [(1u64, 50i64), (2, 10), (3, 30), (4, 10), (5, 40)] {
        base.enqueue(one_shot(id, date, RROS_MONO_CLOCK_ID, 0));
    }
    assert_eq!(dates(&base), vec![10, 10, 30, 40, 50]);
    // Timers due at one date leave in the order they came.
    assert_eq!(base.get(0).unwrap().id, 2);
    assert_eq!(base.get(1).unwrap().id, 4);
    let t = base.dequeue(2);
    assert_eq!(t.id, 3);
    assert_eq!(dates(&base), vec![10, 10, 40, 50]);
}

#[test]
fn membership_is_exclusive() {
    let mut base = RrosTimerbase::new();
    let mut t = one_shot(1, 10, RROS_MONO_CLOCK_ID, 0);
    t.status |= RROS_TIMER_DEQUEUED;
    base.enqueue(t);
    assert!(base.contains(1));
    assert_eq!(base.peek_head().unwrap().status & RROS_TIMER_DEQUEUED, 0);
    let out = base.pop_head();
    assert_ne!(out.status & RROS_TIMER_DEQUEUED, 0);
    assert!(!base.contains(1));
    assert!(base.peek_head().is_none());
}

#[test]
fn periodic_phase_kept() {
    let mono = rros_mono_clock();
    let mut base = RrosTimerbase::new();
    base.enqueue(periodic(1, 5, 10, 0, RROS_MONO_CLOCK_ID));
    let mut rq = RrosRq::new(0, 99, false);
    let mut seen = Vec::new();
    for now in [5i64, 15, 25, 35] {
        let mut src = FixedTime { mono: now, real: 0 };
        do_clock_tick(&mono, &mut base, &mut rq, &mut src, &mut log(now));
        seen.push(base.get(0).unwrap().date);
    }
    assert_eq!(seen, vec![15, 25, 35, 45]);
}

#[test]
fn realtime_adjust_leaves_monotonic_timers() {
    let mono = rros_mono_clock();
    let realtime = rros_realtime_clock();
    let mut base = RrosTimerbase::new();
    base.enqueue(one_shot(1, 100, RROS_MONO_CLOCK_ID, 0));
    base.enqueue(one_shot(2, 200, RROS_REALTIME_CLOCK_ID, 0));
    base.enqueue(one_shot(3, 300, RROS_MONO_CLOCK_ID, 0));
    let mut bases = vec![base];
    rros_adjust_timers(&realtime, &mono, &mut bases, 250, 0, 0);
    let b = &bases[0];
    assert_eq!(b.len(), 3);
    let mono_dates: Vec<i64> =
        (0..b.len()).map(|i| b.get(i).unwrap()).filter(|t| t.clock == RROS_MONO_CLOCK_ID).map(|t| t.date).collect();
    assert_eq!(mono_dates, vec![100, 300]);
    assert_eq!(dates(b), vec![-50, 100, 300]);
}

#[test]
fn adjust_timer_forward_catch_up() {
    let realtime = rros_realtime_clock();
    let mut base = RrosTimerbase::new();
    // Dates move back by 35 ns: due at -25 and read at 10, the timer is
    // three periods late.
    let t = periodic(1, 0, 10, 1, RROS_REALTIME_CLOCK_ID);
    adjust_timer(&realtime, t, &mut base, 35, 10);
    let a = base.get(0).unwrap();
    assert_eq!(a.start_date, -35);
    assert_eq!(a.periodic_ticks, 4);
    assert_eq!(a.date, 5);
}

#[test]
fn adjust_timerbase_one_shot() {
    let realtime = rros_realtime_clock();
    let mut base = RrosTimerbase::new();
    base.enqueue(one_shot(1, 100, RROS_REALTIME_CLOCK_ID, 0));
    adjust_timerbase(&realtime, &mut base, -40, 0);
    assert_eq!(dates(&base), vec![140]);
}

#[test]
fn killed_timer_is_not_rearmed() {
    let mono = rros_mono_clock();
    let mut base = RrosTimerbase::new();
    base.enqueue(periodic(1, 0, 10, 0, RROS_MONO_CLOCK_ID));
    let mut rq = RrosRq::new(0, 99, false);
    let mut src = FixedTime { mono: 0, real: 0 };
    let mut handler = log(0);
    handler.verdict = HandlerVerdict::Kill;
    do_clock_tick(&mono, &mut base, &mut rq, &mut src, &mut handler);
    assert!(base.is_empty());
    assert_eq!(handler.fired.len(), 1);
}

#[test]
fn stopped_timer_is_not_rearmed() {
    let mono = rros_mono_clock();
    let mut base = RrosTimerbase::new();
    base.enqueue(periodic(1, 0, 10, 0, RROS_MONO_CLOCK_ID));
    let mut rq = RrosRq::new(0, 99, false);
    let mut src = FixedTime { mono: 0, real: 0 };
    let mut handler = log(0);
    handler.verdict = HandlerVerdict::Stop;
    do_clock_tick(&mono, &mut base, &mut rq, &mut src, &mut handler);
    assert!(base.is_empty());
}

#[test]
fn migrated_timer_is_not_rearmed() {
    let mono = rros_mono_clock();
    let mut base = RrosTimerbase::new();
    let mut t = periodic(1, 0, 10, 0, RROS_MONO_CLOCK_ID);
    t.cpu = 3;
    base.enqueue(t);
    let mut rq = RrosRq::new(0, 99, false);
    let mut src = FixedTime { mono: 0, real: 0 };
    do_clock_tick(&mono, &mut base, &mut rq, &mut src, &mut log(0));
    assert!(base.is_empty());
}

#[test]
fn timer_due_again_fires_again() {
    let mono = rros_mono_clock();
    let mut base = RrosTimerbase::new();
    let mut t = periodic(1, 0, 10, 0, RROS_MONO_CLOCK_ID);
    t.date = 20;
    base.enqueue(t);
    let mut rq = RrosRq::new(0, 99, false);
    let mut src = FixedTime { mono: 20, real: 0 };
    let mut handler = log(20);
    do_clock_tick(&mono, &mut base, &mut rq, &mut src, &mut handler);
    // Caught up to period 2, due at 20 again: it fires once more.
    assert_eq!(handler.fired.len(), 2);
    assert_eq!(base.get(0).unwrap().date, 30);
    assert_eq!(base.get(0).unwrap().periodic_ticks, 3);
}

#[test]
fn timer_date_formula() {
    let mut t = periodic(1, 1_000, 250, 0, RROS_MONO_CLOCK_ID);
    t.periodic_ticks = 3;
    t.update_date(40);
    assert_eq!(t.date, 1_000 + 3 * 250 - 40);
    assert_eq!(t.get_expiry(40), 1_750);
    t.update_date(i64::MIN);
    assert_eq!(t.date, i64::MAX);
}

#[test]
fn catch_up_values() {
    let t = periodic(1, 0, 10, 0, RROS_MONO_CLOCK_ID);
    let c = t.catch_up(35, 0).unwrap();
    assert_eq!((c.periodic_ticks, c.date), (4, 40));
    let c = t.catch_up(5, 0).unwrap();
    assert_eq!((c.periodic_ticks, c.date), (1, 10));
    let c = t.catch_up(40, 0).unwrap();
    assert_eq!((c.periodic_ticks, c.date), (4, 40));
    assert!(one_shot(2, 0, 0, 0).catch_up(35, 0).is_none());
    let mut last = periodic(3, 0, 10, 0, RROS_MONO_CLOCK_ID);
    last.periodic_ticks = u64::MAX;
    assert!(last.catch_up(35, 0).is_none());
}

#[test]
fn timer_status_helpers() {
    let mut t = periodic(1, 0, 10, 0, RROS_MONO_CLOCK_ID);
    assert!(t.is_periodic());
    assert!(t.on_rq(0));
    assert!(!t.on_rq(1));
    assert!(!t.needs_enqueuing());
    t.add_status(RROS_TIMER_DEQUEUED);
    assert!(t.needs_enqueuing());
    t.add_status(RROS_TIMER_KILLED);
    assert!(!t.needs_enqueuing());
    t.clear_status(RROS_TIMER_KILLED);
    assert!(t.needs_enqueuing());
    t.account_fired();
    t.account_fired();
    assert_eq!(t.fired, 2);
    assert_eq!(t.get_date(), 0);
    assert_eq!(saturate_i64(i128::MAX), i64::MAX);
    assert_eq!(saturate_i64(-5), -5);
}

#[test]
fn clock_set_not_permitted() {
    let mut clock = rros_mono_clock();
    assert_eq!(clock.set(5), Err(ClockError::NotPermitted));
    assert_eq!(clock.get_offset(), 0);
}

#[test]
fn clock_reads() {
    let mono = rros_mono_clock();
    let realtime = rros_realtime_clock();
    let mut src = FixedTime { mono: 11, real: -3 };
    assert_eq!(mono.read(&mut src), 11);
    assert_eq!(realtime.read(&mut src), -3);
    assert_eq!(realtime.read_cycles(&mut src), (-3i64) as u64);
    assert_eq!(rros_read_clock(&mono, &mut src), 11);
    assert_eq!(rros_read_clock(&realtime, &mut src), -3);
    let silent = RrosClock::new(9, "silent", 1, RrosClockGravity::new(0, 0, 0), 0, RrosClockOps::new(ReadSource::NoSource, false, false, false, false), None, 9, 0);
    assert_eq!(silent.read(&mut src), 0);
    assert_eq!(silent.program_remote_shot(1), Shot::Nothing);
    assert_eq!(silent.program_local_shot(&RrosTimerbase::new()), Shot::Nothing);
}

#[test]
fn clock_ops_tables() {
    let m = RrosClockOps::monotonic();
    assert_eq!(m, RrosClockOps::new(ReadSource::Monotonic, true, true, true, false));
    let r = RrosClockOps::realtime();
    assert_eq!(r, RrosClockOps::new(ReadSource::Realtime, false, false, true, true));
    let mono = rros_mono_clock();
    assert_eq!(mono.get_name(), "RROS_CLOCK_MONOTONIC_DEV");
    assert_eq!(rros_realtime_clock().get_name(), "RROS_CLOCK_REALTIME_DEV");
    assert_eq!(mono.program_remote_shot(2), Shot::Remote(2));
}

#[test]
fn monotonic_clock_does_not_adjust() {
    let mut mono = rros_mono_clock();
    let master = rros_mono_clock();
    let mut base = RrosTimerbase::new();
    base.enqueue(one_shot(1, 100, RROS_MONO_CLOCK_ID, 0));
    let mut bases = vec![base];
    let shots = mono.adjust_to(&master, 10, 0, 0, &mut bases, 0);
    assert!(shots.is_empty());
    assert_eq!(mono.offset, 0);
    assert_eq!(dates(&bases[0]), vec![100]);
}

#[test]
fn realtime_adjust_from_sources() {
    let mono = rros_mono_clock();
    let mut realtime = rros_realtime_clock();
    let mut base = RrosTimerbase::new();
    base.enqueue(one_shot(1, 1_000, RROS_REALTIME_CLOCK_ID, 0));
    let mut bases = vec![base];
    let mut src = FixedTime { mono: 100, real: 400 };
    realtime.adjust(&mono, &mut src, &mut bases, 0);
    assert_eq!(realtime.offset, 300);
    assert_eq!(dates(&bases[0]), vec![700]);
}

#[test]
fn stop_timers_drains_every_base() {
    let mono = rros_mono_clock();
    let mut b0 = RrosTimerbase::new();
    b0.enqueue(one_shot(1, 10, RROS_MONO_CLOCK_ID, 0));
    b0.enqueue(one_shot(2, 20, RROS_MONO_CLOCK_ID, 0));
    let mut b1 = RrosTimerbase::new();
    b1.enqueue(one_shot(3, 30, RROS_MONO_CLOCK_ID, 1));
    let mut bases = vec![b0, b1];
    let out = rros_stop_timers(&mono, &mut bases);
    assert!(bases.iter().all(|b| b.is_empty()));
    assert_eq!(out.iter().map(|t| t.id).collect::<Vec<_>>(), vec![1, 2, 3]);
    assert!(out.iter().all(|t| t.status & RROS_TIMER_DEQUEUED != 0 && t.status & RROS_TIMER_RUNNING == 0));
}

#[test]
fn deactivate_head() {
    let mut base = RrosTimerbase::new();
    base.enqueue(one_shot(1, 10, RROS_MONO_CLOCK_ID, 0));
    let t = deactivate(&mut base);
    assert_eq!(t.status & RROS_TIMER_RUNNING, 0);
    assert!(base.is_empty());
}

#[test]
fn subsystem_init() {
    let mut src = FixedTime { mono: 1_000, real: 5_000 };
    let core = rros_clock_init(&mut src, 2, true).unwrap();
    assert_eq!(core.bases.len(), 2);
    assert_eq!(core.mono.get_master(), RROS_MONO_CLOCK_ID);
    assert_eq!(core.mono.get_timerdata_addr(), Some(RROS_MONO_CLOCK_ID));
    assert_eq!(core.realtime.get_master(), RROS_MONO_CLOCK_ID);
    assert_eq!(core.realtime.get_timerdata_addr(), Some(RROS_MONO_CLOCK_ID));
    assert_eq!(core.realtime.get_offset(), 4_000);
    assert_eq!(core.registry.len(), 2);
    assert_eq!(core.registry.lookup(RROS_REALTIME_CLOCK_ID), Ok(0));
    assert_eq!(core.registry.lookup(RROS_MONO_CLOCK_ID), Ok(1));
    assert_eq!(core.registry.lookup(42), Err(ClockError::NotFound));
    assert_eq!(core.mono.gravity, RrosClockGravity::new(200, 0, 0));
}

#[test]
fn init_outside_in_band_context() {
    let mut src = FixedTime { mono: 0, real: 0 };
    assert!(matches!(rros_clock_init(&mut src, 1, false), Err(ClockError::BadContext)));
    let mut registry = ClockRegistry::new();
    let mut clock = rros_mono_clock();
    assert!(matches!(rros_init_clock(&mut clock, 1, false, &mut registry), Err(ClockError::BadContext)));
    let master = rros_mono_clock();
    let mut slave = rros_realtime_clock();
    assert_eq!(rros_init_slave_clock(&mut slave, &master, 0, 0, false, &mut registry), Err(ClockError::BadContext));
    assert_eq!(registry.len(), 0);
}

#[test]
fn init_clock_registers_at_head() {
    let mut registry = ClockRegistry::new();
    let mut a = rros_mono_clock();
    let mut b = rros_realtime_clock();
    init_clock(&mut a, RROS_MONO_CLOCK_ID, &mut registry);
    init_clock(&mut b, RROS_MONO_CLOCK_ID, &mut registry);
    assert_eq!(b.master, RROS_MONO_CLOCK_ID);
    assert_eq!(registry.lookup(RROS_REALTIME_CLOCK_ID), Ok(0));
    assert_eq!(registry.lookup(RROS_MONO_CLOCK_ID), Ok(1));
}

#[test]
fn rq_flag_helpers() {
    let mut rq = RrosRq::new(1, 2, false);
    rq.add_local_flags(RQ_TIMER | RQ_TDEFER);
    rq.change_local_flags(!RQ_TDEFER);
    assert_eq!(rq.get_local_flags(), RQ_TIMER);
}

#[test]
fn fire_head_hands_out_fired_timer() {
    let mut base = RrosTimerbase::new();
    base.enqueue(one_shot(1, 10, RROS_MONO_CLOCK_ID, 0));
    base.enqueue(one_shot(2, 20, RROS_MONO_CLOCK_ID, 0));
    let mut rq = RrosRq::new(0, 2, false);
    let t = fire_head(&mut base, &mut rq).unwrap();
    assert_eq!(t.id, 1);
    assert_eq!(t.fired, 1);
    assert_ne!(t.status & RROS_TIMER_FIRED, 0);
    assert_ne!(t.status & RROS_TIMER_DEQUEUED, 0);
    assert_eq!(rq.local_flags, 0);
    assert!(fire_head(&mut base, &mut rq).is_none());
    assert_ne!(rq.local_flags & RQ_TPROXY, 0);
    assert!(base.is_empty());
}

#[test]
fn rearm_follows_verdict_and_cpu() {
    let mut t = periodic(1, 0, 10, 0, RROS_MONO_CLOCK_ID);
    t.status |= RROS_TIMER_DEQUEUED | RROS_TIMER_FIRED;
    let mut base = RrosTimerbase::new();
    assert!(!rearm(&mut base, t, HandlerVerdict::Kill, 35, 0, 0));
    assert!(!rearm(&mut base, t, HandlerVerdict::Stop, 35, 0, 0));
    assert!(!rearm(&mut base, t, HandlerVerdict::Keep, 35, 0, 1));
    assert!(base.is_empty());
    assert!(rearm(&mut base, t, HandlerVerdict::Keep, 35, 0, 0));
    let a = base.get(0).unwrap();
    assert_eq!((a.periodic_ticks, a.date), (4, 40));
    assert_eq!(a.status & RROS_TIMER_DEQUEUED, 0);
}

#[test]
fn read_clock_without_source() {
    let ops = RrosClockOps::new(ReadSource::NoSource, false, false, false, false);
    let clock = RrosClock::new(5, "none", 1, RrosClockGravity::new(0, 0, 0), 0, ops, None, 5, 0);
    let mut src = FixedTime { mono: 7, real: 8 };
    assert_eq!(rros_read_clock(&clock, &mut src), 0);
}

#[test]
fn clock_new_keeps_fields() {
    let ops = RrosClockOps::realtime();
    let clock = RrosClock::new(1, "rt", 2, RrosClockGravity::new(0, 0, 0), 0, ops, Some(0), 0, 77);
    assert_eq!(clock.get_timerdata_addr(), Some(0));
    assert_eq!(clock.get_master(), 0);
    assert_eq!(clock.get_offset(), 77);
}

#[test]
fn adjust_by_zero_keeps_one_shot_timers() {
    let mono = rros_mono_clock();
    let realtime = rros_realtime_clock();
    let mut base = RrosTimerbase::new();
    base.enqueue(one_shot(1, 100, RROS_REALTIME_CLOCK_ID, 0));
    base.enqueue(one_shot(2, 200, RROS_MONO_CLOCK_ID, 0));
    let before: Vec<RrosTimer> = (0..base.len()).map(|i| base.get(i).unwrap()).collect();
    let mut bases = vec![base];
    rros_adjust_timers(&realtime, &mono, &mut bases, 0, 0, 0);
    let after: Vec<RrosTimer> = (0..bases[0].len()).map(|i| bases[0].get(i).unwrap()).collect();
    assert_eq!(before, after);
}
