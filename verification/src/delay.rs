//! Timing by the system timer.

use vstd::prelude::*;
use crate::board::{Board, Op};
use crate::rcc::Clocks;

verus! {

/// What the engines need to know of the system timer: the frequency it
/// counts at.
#[derive(Clone, Copy, PartialEq, Eq, Structural, Debug)]
pub struct Delay {
    /// Frequency the timer counts at, in Hz; 0 while it is not known.
    pub base_clock: u32,
}

/// Half the number of ticks, at `base` Hz, of a period of `frequency` Hz,
/// rounded up: waiting that long twice for each clock keeps the clock at or
/// below `frequency`.
pub open spec fn half_period_for(base: u32, frequency: u32) -> int {
    (base + 2 * frequency - 1) / (2 * frequency)
}

impl Delay {
    /// A timer whose frequency is not known yet.
    pub fn new() -> (d: Self)
        ensures
            d.base_clock() == 0,
    {
        Delay { base_clock: 0 }
    }

    /// Frequency the timer counts at, in Hz; 0 until `set_sysclk`.
    pub open spec fn base_clock(&self) -> u32 {
        self.base_clock
    }

    /// Takes the timer's frequency from the core clock.
    pub fn set_sysclk(&mut self, clocks: &Clocks)
        ensures
            final(self).base_clock() == clocks.spec_hclk(),
    {
        self.base_clock = clocks.hclk();
    }

    /// Number of timer ticks in one period of `frequency` Hz, rounded down.
    /// A clock of 0 Hz has no period.
    pub fn calc_period_ticks(&self, frequency: u32) -> (ticks: Option<u32>)
        ensures
            ticks == (if frequency == 0 {
                None
            } else {
                Some((self.base_clock() / frequency) as u32)
            }),
    {
        if frequency == 0 {
            None
        } else {
            Some(self.base_clock / frequency)
        }
    }

    /// Number of timer ticks in half a period of the fastest clock that is
    /// no faster than `frequency` Hz: half the ticks of a period, rounded
    /// up. No clock is as slow as 0 Hz.
    pub fn half_period_ticks(&self, frequency: u32) -> (ticks: Option<u32>)
        ensures
            ticks is None <==> frequency == 0,
            ticks matches Some(t) ==> {
                &&& t == half_period_for(self.base_clock, frequency)
                &&& 2 * t * frequency >= self.base_clock
                &&& t > 0 ==> 2 * (t - 1) * frequency < self.base_clock
            },
    {
        if frequency == 0 {
            return None;
        }
        let base = self.base_clock as u64;
        let twice = 2 * (frequency as u64);
        let ticks = (base + twice - 1) / twice;
        proof {
            let b = base as int;
            let d = twice as int;
            let q = ticks as int;
            assert(q * d <= b + d - 1 < (q + 1) * d) by (nonlinear_arith)
                requires
                    d > 0,
                    q == (b + d - 1) / d,
            ;
            assert(q * d >= b && (q > 0 ==> (q - 1) * d < b) && q <= b) by (nonlinear_arith)
                requires
                    d >= 2,
                    b >= 0,
                    q >= 0,
                    q * d <= b + d - 1 < (q + 1) * d,
            ;
            assert(2 * q * (frequency as int) == q * d) by (nonlinear_arith)
                requires
                    d == 2 * (frequency as int),
            ;
            assert(2 * (q - 1) * (frequency as int) == (q - 1) * d) by (nonlinear_arith)
                requires
                    d == 2 * (frequency as int),
            ;
        }
        Some(ticks as u32)
    }

    /// Waits for `us` microseconds.
    pub fn delay_us<H: Board>(&self, hw: &mut H, us: u32)
        requires
            us < 10_000,
            self.base_clock() > 0,
        ensures
            final(hw).trace() == old(hw).trace().push(
                Op::Wait((us as int * self.base_clock() as int / 1_000_000) as u32),
            ),
    {
        assert(us as int * self.base_clock as int <= 10_000 * 0xffff_ffff) by (nonlinear_arith)
            requires
                us < 10_000,
                self.base_clock <= 0xffff_ffff,
        ;
        let ticks: u64 = (us as u64) * (self.base_clock as u64) / 1_000_000;
        hw.delay_ticks(ticks as u32);
    }
}

/// Number of ticks that passed between two readings of the timer's counter,
/// which counts down through 24 bits.
pub open spec fn elapsed(last: u32, now: u32) -> u32 {
    last.wrapping_sub(now) & 0xff_ffff
}

impl Delay {
    /// One step of waiting for `ticks` ticks, where the counter read `last`
    /// before and reads `now`: nothing when the ticks have passed, else the
    /// ticks still to wait for from `now` on.
    pub fn wait_step(ticks: u32, last: u32, now: u32) -> (left: Option<u32>)
        ensures
            left == (if elapsed(last, now) >= ticks {
                None
            } else {
                Some((ticks - elapsed(last, now)) as u32)
            }),
    {
        let delta = last.wrapping_sub(now) & 0xff_ffff;
        if delta >= ticks {
            None
        } else {
            Some(ticks - delta)
        }
    }

    /// Number of timer ticks in `us` microseconds.
    pub fn ticks_for_us(&self, us: u32) -> (ticks: u32)
        requires
            us < 10_000,
        ensures
            ticks == us as int * self.base_clock as int / 1_000_000,
    {
        assert(us as int * self.base_clock as int <= 10_000 * 0xffff_ffff) by (nonlinear_arith)
            requires
                us < 10_000,
                self.base_clock <= 0xffff_ffff,
        ;
        ((us as u64) * (self.base_clock as u64) / 1_000_000) as u32
    }
}

} // verus!
