use vstd::prelude::*;
use crate::base::RrosTimerbase;
use crate::gravity::{default_gravity_spec, RrosClockGravity};

verus! {

/// Identity of the monotonic master clock.
pub const RROS_MONO_CLOCK_ID: u32 = 0;

/// Identity of the realtime clock, slave of the monotonic one.
pub const RROS_REALTIME_CLOCK_ID: u32 = 1;

/// The clock is visible to every process.
pub const RROS_CLONE_PUBLIC: i32 = 0x10000;

/// Device name of the monotonic clock.
pub const RROS_MONO_CLOCK_NAME: &'static str = "RROS_CLOCK_MONOTONIC_DEV";

/// Device name of the realtime clock.
pub const RROS_REALTIME_CLOCK_NAME: &'static str = "RROS_CLOCK_REALTIME_DEV";

/// Errors reported by clock set-up and by `set`.
#[derive(Clone, Copy, Debug, PartialEq, Eq, Structural)]
pub enum ClockError {
    /// The clock cannot be set.
    NotPermitted,
    /// Set-up was asked for outside the in-band context.
    BadContext,
    /// No registered clock has that identity.
    NotFound,
}

/// The hardware time sources a clock reads. A reading is an outside value:
/// nothing is assumed of it but its type.
pub trait TimeSource {
    /// Nanoseconds of the monotonic time source.
    fn mono_now(&mut self) -> i64;

    /// Nanoseconds of the wall-clock time source; it may jump.
    fn real_now(&mut self) -> i64;
}

/// Which time source a clock reads.
#[derive(Clone, Copy, Debug, PartialEq, Eq, Structural)]
pub enum ReadSource {
    NoSource,
    Monotonic,
    Realtime,
}

/// What a clock asks of the tick hardware.
#[derive(Clone, Copy, Debug, PartialEq, Eq, Structural)]
pub enum Shot {
    /// The clock has no such operation.
    Nothing,
    /// Program this CPU's next event at the given date; `None` cedes the
    /// tick to the host kernel's proxy.
    Local(Option<i64>),
    /// Send the given CPU an interrupt so that it programs its own shot.
    Remote(u32),
}

/// The operations a clock family supports. An absent operation is a no-op,
/// but for `set`, which no clock family supports.
#[derive(Clone, Copy, Debug, PartialEq, Eq, Structural)]
pub struct RrosClockOps {
    pub read: ReadSource,
    pub program_local_shot: bool,
    pub program_remote_shot: bool,
    pub gravity: bool,
    pub adjust: bool,
}

impl RrosClockOps {
    pub fn new(
        read: ReadSource,
        program_local_shot: bool,
        program_remote_shot: bool,
        gravity: bool,
        adjust: bool,
    ) -> (r: Self)
        ensures
            r == (RrosClockOps { read, program_local_shot, program_remote_shot, gravity, adjust }),
    {
        RrosClockOps { read, program_local_shot, program_remote_shot, gravity, adjust }
    }

    pub open spec fn monotonic_spec() -> Self {
        RrosClockOps {
            read: ReadSource::Monotonic,
            program_local_shot: true,
            program_remote_shot: true,
            gravity: true,
            adjust: false,
        }
    }

    pub open spec fn realtime_spec() -> Self {
        RrosClockOps {
            read: ReadSource::Realtime,
            program_local_shot: false,
            program_remote_shot: false,
            gravity: true,
            adjust: true,
        }
    }

    /// Operations of the monotonic master clock.
    pub fn monotonic() -> (r: Self)
        ensures
            r == Self::monotonic_spec(),
    {
        RrosClockOps::new(ReadSource::Monotonic, true, true, true, false)
    }

    /// Operations of the realtime slave clock.
    pub fn realtime() -> (r: Self)
        ensures
            r == Self::realtime_spec(),
    {
        RrosClockOps::new(ReadSource::Realtime, false, false, true, true)
    }
}

/// A named time source with its operations, gravity and timer bases.
pub struct RrosClock {
    pub id: u32,
    pub name: &'static str,
    /// Nominal resolution in nanoseconds.
    pub resolution: i64,
    pub gravity: RrosClockGravity,
    pub flags: i32,
    pub ops: RrosClockOps,
    /// Identity of the clock that owns the timer bases this clock uses;
    /// `None` until the clock is set up.
    pub timerdata: Option<u32>,
    /// Identity of the master clock; the clock itself for a master.
    pub master: u32,
    /// Offset to the master's reading, in nanoseconds.
    pub offset: i64,
}

/// The clock after `reset_gravity`.
pub open spec fn reset_gravity_spec(c: RrosClock) -> RrosClock {
    if c.ops.gravity {
        RrosClock { gravity: default_gravity_spec(), ..c }
    } else {
        c
    }
}

/// The clock after `set_gravity(g)`.
pub open spec fn set_gravity_spec(c: RrosClock, g: RrosClockGravity) -> RrosClock {
    if c.ops.gravity {
        RrosClock { gravity: g, ..c }
    } else {
        c
    }
}

/// Resetting the gravity twice leaves the clock as resetting it once.
pub proof fn lemma_reset_gravity_idempotent(c: RrosClock)
    ensures
        reset_gravity_spec(reset_gravity_spec(c)) == reset_gravity_spec(c),
{
}

impl RrosClock {
    pub fn new(
        id: u32,
        name: &'static str,
        resolution: i64,
        gravity: RrosClockGravity,
        flags: i32,
        ops: RrosClockOps,
        timerdata: Option<u32>,
        master: u32,
        offset: i64,
    ) -> (r: Self)
        ensures
            r == (RrosClock {
                id,
                name,
                resolution,
                gravity,
                flags,
                ops,
                timerdata,
                master,
                offset,
            }),
    {
        RrosClock { id, name, resolution, gravity, flags, ops, timerdata, master, offset }
    }

    /// Reads the clock's time source; 0 for a clock with none.
    pub fn read<S: TimeSource>(&self, src: &mut S) -> (r: i64)
        ensures
            self.ops.read == ReadSource::NoSource ==> r == 0,
    {
        match self.ops.read {
            ReadSource::Monotonic => src.mono_now(),
            ReadSource::Realtime => src.real_now(),
            ReadSource::NoSource => 0,
        }
    }

    /// Reads the clock's time source as raw cycles: the nanosecond reading,
    /// two's complement.
    pub fn read_cycles<S: TimeSource>(&self, src: &mut S) -> (r: u64)
        ensures
            self.ops.read == ReadSource::NoSource ==> r == 0,
    {
        let ns = self.read(src);
        ns as u64
    }

    /// No clock family can be set: the clock is left as it is.
    pub fn set(&mut self, time: i64) -> (r: Result<usize, ClockError>)
        ensures
            r == Err::<usize, ClockError>(ClockError::NotPermitted),
            *final(self) == *old(self),
    {
        Err(ClockError::NotPermitted)
    }

    /// What programming this CPU's next shot amounts to, from the timer base
    /// of this CPU.
    pub fn program_local_shot(&self, base: &RrosTimerbase) -> (r: Shot)
        ensures
            r == (if !self.ops.program_local_shot {
                Shot::Nothing
            } else if base@.len() == 0 {
                Shot::Local(None)
            } else {
                Shot::Local(Some(base@[0].date))
            }),
    {
        if !self.ops.program_local_shot {
            Shot::Nothing
        } else {
            match base.peek_head() {
                Some(t) => Shot::Local(Some(t.date)),
                None => Shot::Local(None),
            }
        }
    }

    /// What asking `cpu` to program its next shot amounts to.
    pub fn program_remote_shot(&self, cpu: u32) -> (r: Shot)
        ensures
            r == (if self.ops.program_remote_shot { Shot::Remote(cpu) } else { Shot::Nothing }),
    {
        if self.ops.program_remote_shot {
            Shot::Remote(cpu)
        } else {
            Shot::Nothing
        }
    }

    pub fn set_gravity(&mut self, gravity: RrosClockGravity)
        ensures
            *final(self) == set_gravity_spec(*old(self), gravity),
    {
        if self.ops.gravity {
            self.gravity = gravity;
        }
    }

    /// Restores the configured gravity.
    pub fn reset_gravity(&mut self)
        ensures
            *final(self) == reset_gravity_spec(*old(self)),
    {
        if self.ops.gravity {
            self.gravity = RrosClockGravity::default_gravity();
        }
    }

    pub fn get_timerdata_addr(&self) -> (r: Option<u32>)
        ensures
            r == self.timerdata,
    {
        self.timerdata
    }

    pub fn get_gravity_irq(&self) -> (r: i64)
        ensures
            r == self.gravity.irq,
    {
        self.gravity.irq
    }

    pub fn get_gravity_kernel(&self) -> (r: i64)
        ensures
            r == self.gravity.kernel,
    {
        self.gravity.kernel
    }

    pub fn get_gravity_user(&self) -> (r: i64)
        ensures
            r == self.gravity.user,
    {
        self.gravity.user
    }

    pub fn get_offset(&self) -> (r: i64)
        ensures
            r == self.offset,
    {
        self.offset
    }

    pub fn get_master(&self) -> (r: u32)
        ensures
            r == self.master,
    {
        self.master
    }

    pub fn get_name(&self) -> (r: &'static str)
        ensures
            r == self.name,
    {
        self.name
    }
}

} // verus!
