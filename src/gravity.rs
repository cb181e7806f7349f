use vstd::prelude::*;

verus! {

/// Build-time interrupt latency, in nanoseconds.
pub const CONFIG_RROS_LATENCY_IRQ: i64 = 200;

/// Build-time kernel-context latency, in nanoseconds.
pub const CONFIG_RROS_LATENCY_KERNEL: i64 = 0;

/// Build-time user-context latency, in nanoseconds.
pub const CONFIG_RROS_LATENCY_USER: i64 = 0;

/// Latency compensation of a clock: three nanosecond values subtracted from
/// a timer's deadline, depending on the context that consumes the tick.
#[derive(Clone, Copy, Debug, PartialEq, Eq, Structural)]
pub struct RrosClockGravity {
    pub irq: i64,
    pub kernel: i64,
    pub user: i64,
}

/// The gravity a clock is given at init and on reset.
pub open spec fn default_gravity_spec() -> RrosClockGravity {
    RrosClockGravity {
        irq: CONFIG_RROS_LATENCY_IRQ,
        kernel: CONFIG_RROS_LATENCY_KERNEL,
        user: CONFIG_RROS_LATENCY_USER,
    }
}

impl RrosClockGravity {
    pub fn new(irq: i64, kernel: i64, user: i64) -> (r: Self)
        ensures
            r.irq == irq,
            r.kernel == kernel,
            r.user == user,
    {
        RrosClockGravity { irq, kernel, user }
    }

    /// The configured latencies.
    pub fn default_gravity() -> (r: Self)
        ensures
            r == default_gravity_spec(),
    {
        RrosClockGravity {
            irq: CONFIG_RROS_LATENCY_IRQ,
            kernel: CONFIG_RROS_LATENCY_KERNEL,
            user: CONFIG_RROS_LATENCY_USER,
        }
    }

    pub fn get_irq(&self) -> (r: i64)
        ensures
            r == self.irq,
    {
        self.irq
    }

    pub fn get_kernel(&self) -> (r: i64)
        ensures
            r == self.kernel,
    {
        self.kernel
    }

    pub fn get_user(&self) -> (r: i64)
        ensures
            r == self.user,
    {
        self.user
    }

    pub fn set_irq(&mut self, irq: i64)
        ensures
            *final(self) == (RrosClockGravity { irq, ..*old(self) }),
    {
        self.irq = irq;
    }

    pub fn set_kernel(&mut self, kernel: i64)
        ensures
            *final(self) == (RrosClockGravity { kernel, ..*old(self) }),
    {
        self.kernel = kernel;
    }

    pub fn set_user(&mut self, user: i64)
        ensures
            *final(self) == (RrosClockGravity { user, ..*old(self) }),
    {
        self.user = user;
    }
}

} // verus!
