use vstd::prelude::*;
use crate::base::RrosTimerbase;
use crate::clock::{
    ClockError, RrosClock, RrosClockOps, TimeSource, RROS_CLONE_PUBLIC, RROS_MONO_CLOCK_ID,
    RROS_MONO_CLOCK_NAME, RROS_REALTIME_CLOCK_ID, RROS_REALTIME_CLOCK_NAME,
};
use crate::gravity::{default_gravity_spec, RrosClockGravity};

verus! {

/// The registered clocks, most recent first.
pub struct ClockRegistry {
    clocks: Vec<u32>,
}

impl View for ClockRegistry {
    type V = Seq<u32>;

    closed spec fn view(&self) -> Seq<u32> {
        self.clocks@
    }
}

impl ClockRegistry {
    pub fn new() -> (r: Self)
        ensures
            r@ == Seq::<u32>::empty(),
    {
        ClockRegistry { clocks: Vec::new() }
    }

    pub fn len(&self) -> (r: usize)
        ensures
            r == self@.len(),
    {
        self.clocks.len()
    }

    /// Position of the clock of identity `id`.
    pub fn lookup(&self, id: u32) -> (r: Result<usize, ClockError>)
        ensures
            match r {
                Ok(i) => i < self@.len() && self@[i as int] == id && forall|j: int|
                    0 <= j < i ==> self@[j] != id,
                Err(e) => e == ClockError::NotFound && !self@.contains(id),
            },
    {
        let mut i: usize = 0;
        while i < self.clocks.len()
            invariant
                0 <= i <= self@.len(),
                forall|j: int| 0 <= j < i ==> self@[j] != id,
            decreases self@.len() - i,
        {
            if self.clocks[i] == id {
                return Ok(i);
            }
            i = i + 1;
        }
        Err(ClockError::NotFound)
    }

    fn add_head(&mut self, id: u32)
        ensures
            final(self)@ == seq![id] + old(self)@,
    {
        self.clocks.insert(0, id);
        assert(self@ =~= seq![id] + old(self)@);
    }
}

/// Binds `clock` to `master` and registers it.
pub fn init_clock(clock: &mut RrosClock, master: u32, registry: &mut ClockRegistry)
    ensures
        *final(clock) == (RrosClock { master, ..*old(clock) }),
        final(registry)@ == seq![old(clock).id] + old(registry)@,
{
    clock.master = master;
    registry.add_head(clock.id);
}

/// Sets `clock` up as a master over `nr_cpus` CPUs: it owns one empty timer
/// base per CPU, has no offset, and is registered. Refused outside the
/// in-band context.
pub fn rros_init_clock(
    clock: &mut RrosClock,
    nr_cpus: usize,
    in_band: bool,
    registry: &mut ClockRegistry,
) -> (r: Result<Vec<RrosTimerbase>, ClockError>)
    ensures
        !in_band ==> r == Err::<Vec<RrosTimerbase>, ClockError>(ClockError::BadContext)
            && *final(clock) == *old(clock) && final(registry)@ == old(registry)@,
        in_band ==> {
            &&& r is Ok
            &&& r.unwrap()@.len() == nr_cpus
            &&& forall|c: int|
                0 <= c < nr_cpus ==> (#[trigger] r.unwrap()@[c]).wf() && r.unwrap()@[c]@.len() == 0
            &&& *final(clock) == (RrosClock {
                timerdata: Some(old(clock).id),
                offset: 0,
                master: old(clock).id,
                ..*old(clock)
            })
            &&& final(registry)@ == seq![old(clock).id] + old(registry)@
        },
{
    if !in_band {
        return Err(ClockError::BadContext);
    }
    let mut bases: Vec<RrosTimerbase> = Vec::new();
    let mut c: usize = 0;
    while c < nr_cpus
        invariant
            0 <= c <= nr_cpus,
            bases@.len() == c,
            forall|j: int| 0 <= j < c ==> (#[trigger] bases@[j]).wf() && bases@[j]@.len() == 0,
        decreases nr_cpus - c,
    {
        bases.push(RrosTimerbase::new());
        c = c + 1;
    }
    clock.timerdata = Some(clock.id);
    clock.offset = 0;
    let id = clock.id;
    init_clock(clock, id, registry);
    Ok(bases)
}

/// Sets `clock` up as a slave of `master`: it shares the master's timer
/// bases, its offset is its reading `clock_now` less the master's reading
/// `master_now`, and it is registered. Refused outside the in-band context.
pub fn rros_init_slave_clock(
    clock: &mut RrosClock,
    master: &RrosClock,
    clock_now: i64,
    master_now: i64,
    in_band: bool,
    registry: &mut ClockRegistry,
) -> (r: Result<usize, ClockError>)
    ensures
        !in_band ==> r == Err::<usize, ClockError>(ClockError::BadContext) && *final(clock)
            == *old(clock) && final(registry)@ == old(registry)@,
        in_band ==> {
            &&& r == Ok::<usize, ClockError>(0)
            &&& *final(clock) == (RrosClock {
                timerdata: master.timerdata,
                offset: crate::timer::clamp_i64(clock_now - master_now) as i64,
                master: master.id,
                ..*old(clock)
            })
            &&& final(registry)@ == seq![old(clock).id] + old(registry)@
        },
{
    if !in_band {
        return Err(ClockError::BadContext);
    }
    clock.timerdata = master.get_timerdata_addr();
    clock.offset = crate::adjust::sub_saturating(clock_now, master_now);
    init_clock(clock, master.id, registry);
    Ok(0)
}

/// The clock subsystem once set up.
pub struct RrosClockCore {
    pub mono: RrosClock,
    pub realtime: RrosClock,
    /// Timer bases of the monotonic clock, one per CPU, shared with the
    /// realtime clock.
    pub bases: Vec<RrosTimerbase>,
    pub registry: ClockRegistry,
}

/// The monotonic master clock before set-up.
pub fn rros_mono_clock() -> (r: RrosClock)
    ensures
        r == (RrosClock {
            id: RROS_MONO_CLOCK_ID,
            name: RROS_MONO_CLOCK_NAME,
            resolution: 1,
            gravity: default_gravity_spec(),
            flags: RROS_CLONE_PUBLIC,
            ops: RrosClockOps::monotonic_spec(),
            timerdata: None,
            master: RROS_MONO_CLOCK_ID,
            offset: 0,
        }),
{
    RrosClock::new(
        RROS_MONO_CLOCK_ID,
        RROS_MONO_CLOCK_NAME,
        1,
        RrosClockGravity::default_gravity(),
        RROS_CLONE_PUBLIC,
        RrosClockOps::monotonic(),
        None,
        RROS_MONO_CLOCK_ID,
        0,
    )
}

/// The realtime clock before set-up.
pub fn rros_realtime_clock() -> (r: RrosClock)
    ensures
        r == (RrosClock {
            id: RROS_REALTIME_CLOCK_ID,
            name: RROS_REALTIME_CLOCK_NAME,
            resolution: 1,
            gravity: default_gravity_spec(),
            flags: RROS_CLONE_PUBLIC,
            ops: RrosClockOps::realtime_spec(),
            timerdata: None,
            master: RROS_REALTIME_CLOCK_ID,
            offset: 0,
        }),
{
    RrosClock::new(
        RROS_REALTIME_CLOCK_ID,
        RROS_REALTIME_CLOCK_NAME,
        1,
        RrosClockGravity::default_gravity(),
        RROS_CLONE_PUBLIC,
        RrosClockOps::realtime(),
        None,
        RROS_REALTIME_CLOCK_ID,
        0,
    )
}

/// Sets the clock subsystem up over `nr_cpus` CPUs: the monotonic clock as
/// master, the realtime clock as its slave, both with their configured
/// gravity. Refused outside the in-band context.
pub fn rros_clock_init<S: TimeSource>(src: &mut S, nr_cpus: usize, in_band: bool) -> (r: Result<
    RrosClockCore,
    ClockError,
>)
    ensures
        !in_band ==> r is Err && r->Err_0 == ClockError::BadContext,
        in_band ==> r is Ok && {
            let core = r->Ok_0;
            &&& core.bases@.len() == nr_cpus
            &&& forall|c: int|
                0 <= c < nr_cpus ==> (#[trigger] core.bases@[c]).wf() && core.bases@[c]@.len() == 0
            &&& core.mono.id == RROS_MONO_CLOCK_ID && core.mono.master == RROS_MONO_CLOCK_ID
            &&& core.mono.name == RROS_MONO_CLOCK_NAME
            &&& core.realtime.name == RROS_REALTIME_CLOCK_NAME
            &&& core.mono.ops == RrosClockOps::monotonic_spec()
            &&& core.realtime.ops == RrosClockOps::realtime_spec()
            &&& core.mono.offset == 0 && core.mono.timerdata == Some(RROS_MONO_CLOCK_ID)
            &&& core.mono.gravity == default_gravity_spec()
            &&& core.realtime.id == RROS_REALTIME_CLOCK_ID
            &&& core.realtime.master == RROS_MONO_CLOCK_ID
            &&& core.realtime.timerdata == core.mono.timerdata
            &&& core.realtime.gravity == default_gravity_spec()
            &&& core.registry@ == seq![RROS_REALTIME_CLOCK_ID, RROS_MONO_CLOCK_ID]
        },
{
    let mut registry = ClockRegistry::new();
    let mut mono = rros_mono_clock();
    let mut realtime = rros_realtime_clock();
    mono.reset_gravity();
    realtime.reset_gravity();
    let bases = match rros_init_clock(&mut mono, nr_cpus, in_band, &mut registry) {
        Ok(b) => b,
        Err(e) => {
            return Err(e);
        },
    };
    let realtime_now = realtime.read(src);
    let mono_now = mono.read(src);
    if let Err(e) = rros_init_slave_clock(
        &mut realtime,
        &mono,
        realtime_now,
        mono_now,
        in_band,
        &mut registry,
    ) {
        return Err(e);
    }
    assert(registry@ =~= seq![RROS_REALTIME_CLOCK_ID, RROS_MONO_CLOCK_ID]);
    Ok(RrosClockCore { mono, realtime, bases, registry })
}

/// Reads `clock`; the monotonic clock is read from the monotonic time
/// source directly.
pub fn rros_read_clock<S: TimeSource>(clock: &RrosClock, src: &mut S) -> (r: i64)
    ensures
        clock.id != RROS_MONO_CLOCK_ID && clock.ops.read == crate::clock::ReadSource::NoSource
            ==> r == 0,
{
    if clock.id == RROS_MONO_CLOCK_ID {
        return src.mono_now();
    }
    clock.read(src)
}

} // verus!
