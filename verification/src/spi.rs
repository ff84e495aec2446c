//! The SPI shift registers that stand in for the SWD and JTAG lines.

use vstd::prelude::*;

verus! {

/// One of the two SPI peripherals of the probe.
#[derive(Clone, Copy, PartialEq, Eq, Structural, Debug)]
pub enum SpiBus {
    /// Drives SWCLK and SWDIO.
    Spi1,
    /// Drives TCK, TDI and TDO.
    Spi2,
}

/// Divider between the peripheral clock and the SPI clock.
#[derive(Clone, Copy, PartialEq, Eq, Structural, Debug)]
pub enum SPIPrescaler {
    Div2,
    Div4,
    Div8,
    Div16,
    Div32,
    Div64,
    Div128,
    Div256,
}

} // verus!

verus! {

use crate::rcc::Clocks;

/// What dividing by `prescaler` divides by.
pub open spec fn divisor(prescaler: SPIPrescaler) -> int {
    match prescaler {
        SPIPrescaler::Div2 => 2,
        SPIPrescaler::Div4 => 4,
        SPIPrescaler::Div8 => 8,
        SPIPrescaler::Div16 => 16,
        SPIPrescaler::Div32 => 32,
        SPIPrescaler::Div64 => 64,
        SPIPrescaler::Div128 => 128,
        SPIPrescaler::Div256 => 256,
    }
}

/// The smallest divider that brings a bus clock of `base` Hz to `max` Hz or
/// below, if there is one.
pub open spec fn prescaler_for(base: u32, max: u32) -> Option<SPIPrescaler> {
    if base == 0 {
        None
    } else if base / 2 <= max {
        Some(SPIPrescaler::Div2)
    } else if base / 4 <= max {
        Some(SPIPrescaler::Div4)
    } else if base / 8 <= max {
        Some(SPIPrescaler::Div8)
    } else if base / 16 <= max {
        Some(SPIPrescaler::Div16)
    } else if base / 32 <= max {
        Some(SPIPrescaler::Div32)
    } else if base / 64 <= max {
        Some(SPIPrescaler::Div64)
    } else if base / 128 <= max {
        Some(SPIPrescaler::Div128)
    } else if base / 256 <= max {
        Some(SPIPrescaler::Div256)
    } else {
        None
    }
}

/// What the engines need to know of an SPI peripheral: which one it is and
/// the frequency of the bus that clocks it.
#[derive(Clone, Copy, PartialEq, Eq, Structural, Debug)]
pub struct SPI {
    /// Which peripheral this is.
    pub bus: SpiBus,
    /// Frequency of the bus that clocks the peripheral, in Hz; 0 while it is
    /// not known.
    pub base_clock: u32,
}

impl SPI {
    /// The given SPI peripheral, its bus frequency not known yet.
    pub fn new(bus: SpiBus) -> (spi: Self)
        ensures
            spi.bus() == bus,
            spi.base_clock() == 0,
    {
        SPI { bus, base_clock: 0 }
    }

    /// Which peripheral this is.
    pub open spec fn bus(&self) -> SpiBus {
        self.bus
    }

    /// Frequency of the bus that clocks the peripheral, in Hz; 0 until
    /// `set_base_clock`.
    pub open spec fn base_clock(&self) -> u32 {
        self.base_clock
    }

    /// Which peripheral this is.
    pub fn which(&self) -> (bus: SpiBus)
        ensures
            bus == self.bus(),
    {
        self.bus
    }

    /// Takes the bus frequency from the clocks: APB2 clocks SPI1, APB1 clocks
    /// SPI2.
    pub fn set_base_clock(&mut self, clocks: &Clocks)
        ensures
            final(self).bus() == old(self).bus(),
            final(self).base_clock() == match old(self).bus() {
                SpiBus::Spi1 => clocks.spec_pclk2(),
                SpiBus::Spi2 => clocks.spec_pclk1(),
            },
    {
        match self.bus {
            SpiBus::Spi1 => {
                self.base_clock = clocks.pclk2();
            },
            SpiBus::Spi2 => {
                self.base_clock = clocks.pclk1();
            },
        }
    }

    /// The smallest divider that brings the SPI clock to `max_frequency` or
    /// below, if there is one. There is none while the bus frequency is
    /// unknown, or when even the largest divider leaves the clock too fast.
    pub fn calculate_prescaler(&self, max_frequency: u32) -> (r: Option<SPIPrescaler>)
        ensures
            r == prescaler_for(self.base_clock(), max_frequency),
            r is None <==> (self.base_clock() == 0 || self.base_clock() / 256 > max_frequency),
            r matches Some(p) ==> {
                &&& self.base_clock() as int / divisor(p) <= max_frequency
                &&& forall|q: SPIPrescaler| #[trigger]
                    divisor(q) < divisor(p) ==> self.base_clock() as int / divisor(q)
                        > max_frequency
            },
    {
        let base_clock = self.base_clock;
        if base_clock == 0 {
            return None;
        }
        if (base_clock / 2) <= max_frequency {
            return Some(SPIPrescaler::Div2);
        }
        if (base_clock / 4) <= max_frequency {
            return Some(SPIPrescaler::Div4);
        }
        if (base_clock / 8) <= max_frequency {
            return Some(SPIPrescaler::Div8);
        }
        if (base_clock / 16) <= max_frequency {
            return Some(SPIPrescaler::Div16);
        }
        if (base_clock / 32) <= max_frequency {
            return Some(SPIPrescaler::Div32);
        }
        if (base_clock / 64) <= max_frequency {
            return Some(SPIPrescaler::Div64);
        }
        if (base_clock / 128) <= max_frequency {
            return Some(SPIPrescaler::Div128);
        }
        if (base_clock / 256) <= max_frequency {
            return Some(SPIPrescaler::Div256);
        }
        None
    }
}

} // verus!
