//! Clock frequencies of the probe.

use vstd::prelude::*;

verus! {

/// Core clock frequencies the probe can run at.
#[derive(Clone, Copy, PartialEq, Eq, Structural, Debug)]
pub enum CoreFrequency {
    F48MHz,
    F72MHz,
    F216MHz,
}

/// The system clock and the bus prescalers in force, from which the
/// frequency of each bus follows.
#[derive(Clone, Copy, PartialEq, Eq, Structural, Debug)]
pub struct Clocks {
    sysclk: u32,
    hpre: u32,
    ppre1: u32,
    ppre2: u32,
}

/// Divider that a value of the AHB prescaler field stands for.
pub open spec fn ahb_divider(hpre: u32) -> int {
    if hpre == 0b1000 {
        2
    } else if hpre == 0b1001 {
        4
    } else if hpre == 0b1010 {
        8
    } else if hpre == 0b1011 {
        16
    } else if hpre == 0b1100 {
        64
    } else if hpre == 0b1101 {
        128
    } else if hpre == 0b1110 {
        256
    } else if hpre == 0b1111 {
        512
    } else {
        1
    }
}

/// Divider that a value of an APB prescaler field stands for.
pub open spec fn apb_divider(ppre: u32) -> int {
    if ppre == 0b100 {
        2
    } else if ppre == 0b101 {
        4
    } else if ppre == 0b110 {
        8
    } else if ppre == 0b111 {
        16
    } else {
        1
    }
}

impl Clocks {
    /// Clocks for a system clock of `sysclk` Hz and the given values of the
    /// AHB, APB1 and APB2 prescaler fields.
    pub fn new(sysclk: u32, hpre: u32, ppre1: u32, ppre2: u32) -> (c: Self)
        ensures
            c.sysclk() == sysclk,
            c.hpre() == hpre,
            c.ppre1() == ppre1,
            c.ppre2() == ppre2,
    {
        Clocks { sysclk, hpre, ppre1, ppre2 }
    }

    pub closed spec fn sysclk(&self) -> u32 {
        self.sysclk
    }

    pub closed spec fn hpre(&self) -> u32 {
        self.hpre
    }

    pub closed spec fn ppre1(&self) -> u32 {
        self.ppre1
    }

    pub closed spec fn ppre2(&self) -> u32 {
        self.ppre2
    }

    /// Frequency of the AHB bus and the core, in Hz.
    pub open spec fn spec_hclk(&self) -> int {
        self.sysclk() as int / ahb_divider(self.hpre())
    }

    /// Frequency of the APB1 bus, in Hz.
    pub open spec fn spec_pclk1(&self) -> int {
        self.spec_hclk() / apb_divider(self.ppre1())
    }

    /// Frequency of the APB2 bus, in Hz.
    pub open spec fn spec_pclk2(&self) -> int {
        self.spec_hclk() / apb_divider(self.ppre2())
    }

    /// Frequency of the AHB bus and the core, in Hz.
    pub fn hclk(&self) -> (f: u32)
        ensures
            f == self.spec_hclk(),
    {
        let hpre = self.hpre;
        if hpre == 0b1000 {
            self.sysclk / 2
        } else if hpre == 0b1001 {
            self.sysclk / 4
        } else if hpre == 0b1010 {
            self.sysclk / 8
        } else if hpre == 0b1011 {
            self.sysclk / 16
        } else if hpre == 0b1100 {
            self.sysclk / 64
        } else if hpre == 0b1101 {
            self.sysclk / 128
        } else if hpre == 0b1110 {
            self.sysclk / 256
        } else if hpre == 0b1111 {
            self.sysclk / 512
        } else {
            self.sysclk
        }
    }

    /// Frequency of the APB1 bus, in Hz.
    pub fn pclk1(&self) -> (f: u32)
        ensures
            f == self.spec_pclk1(),
    {
        let hclk = self.hclk();
        let ppre = self.ppre1;
        if ppre == 0b100 {
            hclk / 2
        } else if ppre == 0b101 {
            hclk / 4
        } else if ppre == 0b110 {
            hclk / 8
        } else if ppre == 0b111 {
            hclk / 16
        } else {
            hclk
        }
    }

    /// Frequency of the APB2 bus, in Hz.
    pub fn pclk2(&self) -> (f: u32)
        ensures
            f == self.spec_pclk2(),
    {
        let hclk = self.hclk();
        let ppre = self.ppre2;
        if ppre == 0b100 {
            hclk / 2
        } else if ppre == 0b101 {
            hclk / 4
        } else if ppre == 0b110 {
            hclk / 8
        } else if ppre == 0b111 {
            hclk / 16
        } else {
            hclk
        }
    }
}

/// Frequency of the crystal that feeds the PLL, in Hz.
pub const HSE_FREQUENCY: u32 = 12_000_000;

/// What goes into the clock registers for a core frequency.
#[derive(Clone, Copy, PartialEq, Eq, Structural, Debug)]
pub struct PllSettings {
    /// The APB1 prescaler field.
    pub ppre1: u32,
    /// The APB2 prescaler field.
    pub ppre2: u32,
    /// The divider of the crystal.
    pub pllm: u32,
    /// The multiplier of the PLL.
    pub plln: u32,
    /// The field of the divider for the system clock: it divides by twice
    /// the field plus two.
    pub pllp: u32,
    /// The divider for the USB clock.
    pub pllq: u32,
    /// The flash wait states.
    pub flash_latency: u32,
    /// The system clock that results, in Hz.
    pub sysclk: u32,
}

/// The voltage scale of the regulator.
#[derive(Clone, Copy, PartialEq, Eq, Structural, Debug)]
pub enum VoltageScale {
    Scale3,
    Scale2,
    Scale1,
}

impl CoreFrequency {
    /// The core frequency in Hz.
    pub open spec fn hz(self) -> u32 {
        match self {
            CoreFrequency::F48MHz => 48_000_000,
            CoreFrequency::F72MHz => 72_000_000,
            CoreFrequency::F216MHz => 216_000_000,
        }
    }

    /// What goes into the clock registers for the core frequency. The PLL
    /// brings the crystal to the core frequency and the USB clock to 48
    /// MHz, and neither peripheral bus runs faster than it may.
    pub fn settings(self) -> (s: PllSettings)
        ensures
            s.sysclk == self.hz(),
            s.pllm > 0,
            (HSE_FREQUENCY / s.pllm) as int * s.plln as int / (2 * s.pllp as int + 2) == s.sysclk,
            (HSE_FREQUENCY / s.pllm) as int * s.plln as int / (s.pllq as int) == 48_000_000,
            s.sysclk as int / apb_divider(s.ppre1) <= 54_000_000,
            s.sysclk as int / apb_divider(s.ppre2) <= 108_000_000,
            s == (match self {
                CoreFrequency::F48MHz => PllSettings {
                    ppre1: 0b000,
                    ppre2: 0b000,
                    pllm: 6,
                    plln: 96,
                    pllp: 0b01,
                    pllq: 4,
                    flash_latency: 0b0001,
                    sysclk: 48_000_000,
                },
                CoreFrequency::F72MHz => PllSettings {
                    ppre1: 0b100,
                    ppre2: 0b000,
                    pllm: 6,
                    plln: 144,
                    pllp: 0b01,
                    pllq: 6,
                    flash_latency: 0b0010,
                    sysclk: 72_000_000,
                },
                CoreFrequency::F216MHz => PllSettings {
                    ppre1: 0b101,
                    ppre2: 0b100,
                    pllm: 6,
                    plln: 216,
                    pllp: 0b00,
                    pllq: 9,
                    flash_latency: 0b0111,
                    sysclk: 216_000_000,
                },
            }),
    {
        assert(12_000_000u32 / 6 == 2_000_000);
        assert(2_000_000 * 96 / 4 == 48_000_000 && 2_000_000 * 96 / 4 == 48_000_000);
        assert(2_000_000 * 144 / 4 == 72_000_000 && 2_000_000 * 144 / 6 == 48_000_000);
        assert(2_000_000 * 216 / 2 == 216_000_000 && 2_000_000 * 216 / 9 == 48_000_000);
        match self {
            CoreFrequency::F48MHz => PllSettings {
                ppre1: 0b000,
                ppre2: 0b000,
                pllm: 6,
                plln: 96,
                pllp: 0b01,
                pllq: 4,
                flash_latency: 0b0001,
                sysclk: 48_000_000,
            },
            CoreFrequency::F72MHz => PllSettings {
                ppre1: 0b100,
                ppre2: 0b000,
                pllm: 6,
                plln: 144,
                pllp: 0b01,
                pllq: 6,
                flash_latency: 0b0010,
                sysclk: 72_000_000,
            },
            CoreFrequency::F216MHz => PllSettings {
                ppre1: 0b101,
                ppre2: 0b100,
                pllm: 6,
                plln: 216,
                pllp: 0b00,
                pllq: 9,
                flash_latency: 0b0111,
                sysclk: 216_000_000,
            },
        }
    }
}

/// The voltage scale that a system clock needs, and whether the regulator
/// has to go into over-drive for it.
pub fn voltage_for(sysclk: u32) -> (r: (VoltageScale, bool))
    ensures
        r.0 == (if sysclk <= 144_000_000 {
            VoltageScale::Scale3
        } else if sysclk <= 168_000_000 {
            VoltageScale::Scale2
        } else {
            VoltageScale::Scale1
        }),
        r.1 == (sysclk > 180_000_000),
{
    if sysclk <= 144_000_000 {
        (VoltageScale::Scale3, false)
    } else if sysclk <= 168_000_000 {
        (VoltageScale::Scale2, false)
    } else if sysclk <= 180_000_000 {
        (VoltageScale::Scale1, false)
    } else {
        (VoltageScale::Scale1, true)
    }
}

} // verus!
