//! The lines of the probe and the roles they take in each debug mode.

use vstd::prelude::*;
use vstd::seq_lib::lemma_concat_associative;
use crate::board::{Board, Line, Op, OutputType, PinMode, Pull, Speed};

verus! {

/// Trace of releasing every debug line: reset high and driven, all others
/// inputs.
pub open spec fn high_impedance_ops() -> Seq<Op> {
    seq![
        Op::PinWrite(Line::Reset, true),
        Op::PinMode(Line::Reset, PinMode::Output),
        Op::PinMode(Line::Usart1Rx, PinMode::Input),
        Op::PinMode(Line::Spi1Clk, PinMode::Input),
        Op::PinMode(Line::Spi1Miso, PinMode::Input),
        Op::PinMode(Line::Spi1Mosi, PinMode::Input),
        Op::PinMode(Line::Spi2Clk, PinMode::Input),
        Op::PinMode(Line::Spi2Miso, PinMode::Input),
        Op::PinMode(Line::Spi2Mosi, PinMode::Input),
    ]
}

/// Trace of setting the lines up for JTAG: TMS, TCK and TDI are driven by
/// the pins, TDO is an input, the SWD clock and data inputs are released.
pub open spec fn jtag_mode_ops() -> Seq<Op> {
    seq![
        Op::PinMode(Line::Reset, PinMode::Output),
        Op::PinMode(Line::Usart1Rx, PinMode::Input),
        Op::PinMode(Line::Spi1Clk, PinMode::Input),
        Op::PinMode(Line::Spi1Miso, PinMode::Input),
        Op::PinMode(Line::Spi1Mosi, PinMode::Output),
        Op::PinMode(Line::Spi2Clk, PinMode::Output),
        Op::PinMode(Line::Spi2Miso, PinMode::Input),
        Op::PinMode(Line::Spi2Mosi, PinMode::Output),
    ]
}

/// Trace of setting the lines up for SWD: the JTAG lines are released, the
/// trace input and the SWD clock and data lines go to their peripherals.
pub open spec fn swd_mode_ops() -> Seq<Op> {
    seq![
        Op::PinMode(Line::Reset, PinMode::Output),
        Op::PinMode(Line::Usart1Rx, PinMode::Alternate),
        Op::PinMode(Line::Spi2Clk, PinMode::Input),
        Op::PinMode(Line::Spi2Miso, PinMode::Input),
        Op::PinMode(Line::Spi2Mosi, PinMode::Input),
        Op::PinMode(Line::Spi1Clk, PinMode::Alternate),
        Op::PinMode(Line::Spi1Miso, PinMode::Alternate),
        Op::PinMode(Line::Spi1Mosi, PinMode::Alternate),
    ]
}

/// The debug lines of the probe, by the roles they play.
pub struct Pins;

impl Pins {
    /// Releases every debug line.
    pub fn high_impedance_mode<H: Board>(hw: &mut H)
        ensures
            final(hw).trace() == old(hw).trace() + high_impedance_ops(),
    {
        hw.pin_write(Line::Reset, true);
        hw.pin_mode(Line::Reset, PinMode::Output);
        hw.pin_mode(Line::Usart1Rx, PinMode::Input);
        hw.pin_mode(Line::Spi1Clk, PinMode::Input);
        hw.pin_mode(Line::Spi1Miso, PinMode::Input);
        hw.pin_mode(Line::Spi1Mosi, PinMode::Input);
        hw.pin_mode(Line::Spi2Clk, PinMode::Input);
        hw.pin_mode(Line::Spi2Miso, PinMode::Input);
        hw.pin_mode(Line::Spi2Mosi, PinMode::Input);
        assert(hw.trace() =~= old(hw).trace() + high_impedance_ops());
    }

    /// Sets the lines up for JTAG.
    pub fn jtag_mode<H: Board>(hw: &mut H)
        ensures
            final(hw).trace() == old(hw).trace() + jtag_mode_ops(),
    {
        hw.pin_mode(Line::Reset, PinMode::Output);
        hw.pin_mode(Line::Usart1Rx, PinMode::Input);
        hw.pin_mode(Line::Spi1Clk, PinMode::Input);
        hw.pin_mode(Line::Spi1Miso, PinMode::Input);
        hw.pin_mode(Line::Spi1Mosi, PinMode::Output);
        hw.pin_mode(Line::Spi2Clk, PinMode::Output);
        hw.pin_mode(Line::Spi2Miso, PinMode::Input);
        hw.pin_mode(Line::Spi2Mosi, PinMode::Output);
        assert(hw.trace() =~= old(hw).trace() + jtag_mode_ops());
    }

    /// Sets the lines up for SWD.
    pub fn swd_mode<H: Board>(hw: &mut H)
        ensures
            final(hw).trace() == old(hw).trace() + swd_mode_ops(),
    {
        hw.pin_mode(Line::Reset, PinMode::Output);
        hw.pin_mode(Line::Usart1Rx, PinMode::Alternate);
        hw.pin_mode(Line::Spi2Clk, PinMode::Input);
        hw.pin_mode(Line::Spi2Miso, PinMode::Input);
        hw.pin_mode(Line::Spi2Mosi, PinMode::Input);
        hw.pin_mode(Line::Spi1Clk, PinMode::Alternate);
        hw.pin_mode(Line::Spi1Miso, PinMode::Alternate);
        hw.pin_mode(Line::Spi1Mosi, PinMode::Alternate);
        assert(hw.trace() =~= old(hw).trace() + swd_mode_ops());
    }

    /// Takes the probe off SWDIO: the target drives the bus.
    pub fn swd_rx<H: Board>(hw: &mut H)
        ensures
            final(hw).trace() == old(hw).trace().push(
                Op::PinMode(Line::Spi1Mosi, PinMode::Input),
            ),
    {
        hw.pin_mode(Line::Spi1Mosi, PinMode::Input);
    }

    /// Puts the SPI peripheral on SWDIO: the probe drives the bus.
    pub fn swd_tx<H: Board>(hw: &mut H)
        ensures
            final(hw).trace() == old(hw).trace().push(
                Op::PinMode(Line::Spi1Mosi, PinMode::Alternate),
            ),
    {
        hw.pin_mode(Line::Spi1Mosi, PinMode::Alternate);
    }

    /// Puts the pin itself on SWDIO, to be driven bit by bit.
    pub fn swd_tx_direct<H: Board>(hw: &mut H)
        ensures
            final(hw).trace() == old(hw).trace().push(
                Op::PinMode(Line::Spi1Mosi, PinMode::Output),
            ),
    {
        hw.pin_mode(Line::Spi1Mosi, PinMode::Output);
    }

    /// Puts the pin itself on SWCLK, to be driven edge by edge.
    pub fn swd_clk_direct<H: Board>(hw: &mut H)
        ensures
            final(hw).trace() == old(hw).trace().push(
                Op::PinMode(Line::Spi1Clk, PinMode::Output),
            ),
    {
        hw.pin_mode(Line::Spi1Clk, PinMode::Output);
    }

    /// Gives SWCLK back to the SPI peripheral.
    pub fn swd_clk_spi<H: Board>(hw: &mut H)
        ensures
            final(hw).trace() == old(hw).trace().push(
                Op::PinMode(Line::Spi1Clk, PinMode::Alternate),
            ),
    {
        hw.pin_mode(Line::Spi1Clk, PinMode::Alternate);
    }
}

/// Trace of setting a line up as an output driven by the pin.
pub open spec fn output_ops(line: Line, level: bool, kind: OutputType, speed: Speed) -> Seq<Op> {
    seq![
        Op::PinWrite(line, level),
        Op::PinOutputType(line, kind),
        Op::PinSpeed(line, speed),
        Op::PinMode(line, PinMode::Output),
    ]
}

/// Trace of preparing a line as a fast push-pull output of a peripheral, and
/// leaving it in the given mode.
pub open spec fn peripheral_output_ops(line: Line, function: u8, mode: PinMode) -> Seq<Op> {
    seq![
        Op::PinFunction(line, function),
        Op::PinOutputType(line, OutputType::PushPull),
        Op::PinSpeed(line, Speed::VeryHigh),
        Op::PinMode(line, mode),
    ]
}

/// Trace of preparing a line as an input of a peripheral, released for now.
pub open spec fn peripheral_input_ops(line: Line, function: u8) -> Seq<Op> {
    seq![Op::PinFunction(line, function), Op::PinMode(line, PinMode::Input)]
}

/// Trace of setting up every line of the probe. The LEDs and the reset line
/// are open-drain outputs, off and released; the supplies of the target are
/// off; the debug lines are prepared for their peripherals and released.
pub open spec fn setup_ops() -> Seq<Op> {
    output_ops(Line::LedRed, true, OutputType::OpenDrain, Speed::Low) + output_ops(
        Line::LedGreen,
        true,
        OutputType::OpenDrain,
        Speed::Low,
    ) + output_ops(Line::LedBlue, true, OutputType::OpenDrain, Speed::Low) + output_ops(
        Line::T5vEn,
        false,
        OutputType::PushPull,
        Speed::Low,
    ) + output_ops(Line::TvccEn, false, OutputType::PushPull, Speed::Low) + output_ops(
        Line::Reset,
        true,
        OutputType::OpenDrain,
        Speed::High,
    ) + seq![
        Op::PinPull(Line::GndDetect, Pull::Up),
        Op::PinMode(Line::GndDetect, PinMode::Input),
    ] + peripheral_input_ops(Line::Usart1Rx, 7) + seq![
        Op::PinFunction(Line::Usart2Rx, 7),
        Op::PinPull(Line::Usart2Rx, Pull::Up),
        Op::PinMode(Line::Usart2Rx, PinMode::Alternate),
    ] + seq![
        Op::PinWrite(Line::Usart2Tx, true),
        Op::PinSpeed(Line::Usart2Tx, Speed::High),
        Op::PinFunction(Line::Usart2Tx, 7),
        Op::PinMode(Line::Usart2Tx, PinMode::Alternate),
    ] + peripheral_output_ops(Line::Spi1Clk, 5, PinMode::Input) + peripheral_input_ops(
        Line::Spi1Miso,
        5,
    ) + peripheral_output_ops(Line::Spi1Mosi, 5, PinMode::Input) + peripheral_output_ops(
        Line::Spi2Clk,
        5,
        PinMode::Input,
    ) + peripheral_input_ops(Line::Spi2Miso, 5) + peripheral_output_ops(
        Line::Spi2Mosi,
        5,
        PinMode::Input,
    ) + peripheral_output_ops(Line::UsbDm, 12, PinMode::Alternate) + peripheral_output_ops(
        Line::UsbDp,
        12,
        PinMode::Alternate,
    ) + output_ops(Line::UsbSel, true, OutputType::PushPull, Speed::Low)
}

impl Pins {
    fn output<H: Board>(
        hw: &mut H,
        line: Line,
        level: bool,
        kind: OutputType,
        speed: Speed,
        Ghost(start): Ghost<Seq<Op>>,
        Ghost(done): Ghost<Seq<Op>>,
    )
        requires
            old(hw).trace() == start + done,
        ensures
            final(hw).trace() == start + (done + output_ops(line, level, kind, speed)),
    {
        hw.pin_write(line, level);
        hw.pin_output_type(line, kind);
        hw.pin_speed(line, speed);
        hw.pin_mode(line, PinMode::Output);
        assert(hw.trace() =~= old(hw).trace() + output_ops(line, level, kind, speed));
        proof {
            lemma_concat_associative(start, done, output_ops(line, level, kind, speed));
        }
    }

    fn peripheral_output<H: Board>(
        hw: &mut H,
        line: Line,
        function: u8,
        mode: PinMode,
        Ghost(start): Ghost<Seq<Op>>,
        Ghost(done): Ghost<Seq<Op>>,
    )
        requires
            old(hw).trace() == start + done,
        ensures
            final(hw).trace() == start + (done + peripheral_output_ops(line, function, mode)),
    {
        hw.pin_function(line, function);
        hw.pin_output_type(line, OutputType::PushPull);
        hw.pin_speed(line, Speed::VeryHigh);
        hw.pin_mode(line, mode);
        assert(hw.trace() =~= old(hw).trace() + peripheral_output_ops(line, function, mode));
        proof {
            lemma_concat_associative(start, done, peripheral_output_ops(line, function, mode));
        }
    }

    fn peripheral_input<H: Board>(
        hw: &mut H,
        line: Line,
        function: u8,
        Ghost(start): Ghost<Seq<Op>>,
        Ghost(done): Ghost<Seq<Op>>,
    )
        requires
            old(hw).trace() == start + done,
        ensures
            final(hw).trace() == start + (done + peripheral_input_ops(line, function)),
    {
        hw.pin_function(line, function);
        hw.pin_mode(line, PinMode::Input);
        assert(hw.trace() =~= old(hw).trace() + peripheral_input_ops(line, function));
        proof {
            lemma_concat_associative(start, done, peripheral_input_ops(line, function));
        }
    }

    /// Sets up every line of the probe.
    pub fn setup<H: Board>(hw: &mut H)
        ensures
            final(hw).trace() == old(hw).trace() + setup_ops(),
    {
        let ghost t0 = hw.trace();
        let ghost mut done: Seq<Op> = Seq::empty();
        assert(t0 =~= t0 + done);

        // The LEDs light when driven low.
        Self::output(hw, Line::LedRed, true, OutputType::OpenDrain, Speed::Low, Ghost(t0), Ghost(done));
        proof {
            assert(done + output_ops(Line::LedRed, true, OutputType::OpenDrain, Speed::Low)
                =~= output_ops(Line::LedRed, true, OutputType::OpenDrain, Speed::Low));
            done = output_ops(Line::LedRed, true, OutputType::OpenDrain, Speed::Low);
        }
        Self::output(hw, Line::LedGreen, true, OutputType::OpenDrain, Speed::Low, Ghost(t0), Ghost(done));
        proof {
            done = done + output_ops(Line::LedGreen, true, OutputType::OpenDrain, Speed::Low);
        }
        Self::output(hw, Line::LedBlue, true, OutputType::OpenDrain, Speed::Low, Ghost(t0), Ghost(done));
        proof {
            done = done + output_ops(Line::LedBlue, true, OutputType::OpenDrain, Speed::Low);
        }

        // The supplies of the target, off.
        Self::output(hw, Line::T5vEn, false, OutputType::PushPull, Speed::Low, Ghost(t0), Ghost(done));
        proof {
            done = done + output_ops(Line::T5vEn, false, OutputType::PushPull, Speed::Low);
        }
        Self::output(hw, Line::TvccEn, false, OutputType::PushPull, Speed::Low, Ghost(t0), Ghost(done));
        proof {
            done = done + output_ops(Line::TvccEn, false, OutputType::PushPull, Speed::Low);
        }

        // The reset line pulls low when driven.
        Self::output(hw, Line::Reset, true, OutputType::OpenDrain, Speed::High, Ghost(t0), Ghost(done));
        proof {
            done = done + output_ops(Line::Reset, true, OutputType::OpenDrain, Speed::High);
        }

        hw.pin_pull(Line::GndDetect, Pull::Up);
        hw.pin_mode(Line::GndDetect, PinMode::Input);
        proof {
            let group = seq![
                Op::PinPull(Line::GndDetect, Pull::Up),
                Op::PinMode(Line::GndDetect, PinMode::Input),
            ];
            assert(hw.trace() =~= t0 + done + group);
            lemma_concat_associative(t0, done, group);
            done = done + group;
        }

        // The trace input, released for now.
        Self::peripheral_input(hw, Line::Usart1Rx, 7, Ghost(t0), Ghost(done));
        proof {
            done = done + peripheral_input_ops(Line::Usart1Rx, 7);
        }

        // The serial lines of the target.
        hw.pin_function(Line::Usart2Rx, 7);
        hw.pin_pull(Line::Usart2Rx, Pull::Up);
        hw.pin_mode(Line::Usart2Rx, PinMode::Alternate);
        proof {
            let group = seq![
                Op::PinFunction(Line::Usart2Rx, 7),
                Op::PinPull(Line::Usart2Rx, Pull::Up),
                Op::PinMode(Line::Usart2Rx, PinMode::Alternate),
            ];
            assert(hw.trace() =~= t0 + done + group);
            lemma_concat_associative(t0, done, group);
            done = done + group;
        }
        hw.pin_write(Line::Usart2Tx, true);
        hw.pin_speed(Line::Usart2Tx, Speed::High);
        hw.pin_function(Line::Usart2Tx, 7);
        hw.pin_mode(Line::Usart2Tx, PinMode::Alternate);
        proof {
            let group = seq![
                Op::PinWrite(Line::Usart2Tx, true),
                Op::PinSpeed(Line::Usart2Tx, Speed::High),
                Op::PinFunction(Line::Usart2Tx, 7),
                Op::PinMode(Line::Usart2Tx, PinMode::Alternate),
            ];
            assert(hw.trace() =~= t0 + done + group);
            lemma_concat_associative(t0, done, group);
            done = done + group;
        }

        // The debug lines, released for now.
        Self::peripheral_output(hw, Line::Spi1Clk, 5, PinMode::Input, Ghost(t0), Ghost(done));
        proof {
            done = done + peripheral_output_ops(Line::Spi1Clk, 5, PinMode::Input);
        }
        Self::peripheral_input(hw, Line::Spi1Miso, 5, Ghost(t0), Ghost(done));
        proof {
            done = done + peripheral_input_ops(Line::Spi1Miso, 5);
        }
        Self::peripheral_output(hw, Line::Spi1Mosi, 5, PinMode::Input, Ghost(t0), Ghost(done));
        proof {
            done = done + peripheral_output_ops(Line::Spi1Mosi, 5, PinMode::Input);
        }
        Self::peripheral_output(hw, Line::Spi2Clk, 5, PinMode::Input, Ghost(t0), Ghost(done));
        proof {
            done = done + peripheral_output_ops(Line::Spi2Clk, 5, PinMode::Input);
        }
        Self::peripheral_input(hw, Line::Spi2Miso, 5, Ghost(t0), Ghost(done));
        proof {
            done = done + peripheral_input_ops(Line::Spi2Miso, 5);
        }
        Self::peripheral_output(hw, Line::Spi2Mosi, 5, PinMode::Input, Ghost(t0), Ghost(done));
        proof {
            done = done + peripheral_output_ops(Line::Spi2Mosi, 5, PinMode::Input);
        }

        // The USB lines.
        Self::peripheral_output(hw, Line::UsbDm, 12, PinMode::Alternate, Ghost(t0), Ghost(done));
        proof {
            done = done + peripheral_output_ops(Line::UsbDm, 12, PinMode::Alternate);
        }
        Self::peripheral_output(hw, Line::UsbDp, 12, PinMode::Alternate, Ghost(t0), Ghost(done));
        proof {
            done = done + peripheral_output_ops(Line::UsbDp, 12, PinMode::Alternate);
        }
        Self::output(hw, Line::UsbSel, true, OutputType::PushPull, Speed::Low, Ghost(t0), Ghost(done));
    }
}

/// The place of a pin in its port.
#[derive(Clone, Copy, PartialEq, Eq, Structural, Debug)]
pub enum PinIndex {
    Pin0,
    Pin1,
    Pin2,
    Pin3,
    Pin4,
    Pin5,
    Pin6,
    Pin7,
    Pin8,
    Pin9,
    Pin10,
    Pin11,
    Pin12,
    Pin13,
    Pin14,
    Pin15,
}

impl PinIndex {
    /// The pin's number, 0 to 15.
    pub open spec fn spec_index(self) -> u8 {
        match self {
            PinIndex::Pin0 => 0,
            PinIndex::Pin1 => 1,
            PinIndex::Pin2 => 2,
            PinIndex::Pin3 => 3,
            PinIndex::Pin4 => 4,
            PinIndex::Pin5 => 5,
            PinIndex::Pin6 => 6,
            PinIndex::Pin7 => 7,
            PinIndex::Pin8 => 8,
            PinIndex::Pin9 => 9,
            PinIndex::Pin10 => 10,
            PinIndex::Pin11 => 11,
            PinIndex::Pin12 => 12,
            PinIndex::Pin13 => 13,
            PinIndex::Pin14 => 14,
            PinIndex::Pin15 => 15,
        }
    }

    /// The pin's number, 0 to 15.
    pub fn index(self) -> (n: u8)
        ensures
            n == self.spec_index(),
            n < 16,
    {
        match self {
            PinIndex::Pin0 => 0,
            PinIndex::Pin1 => 1,
            PinIndex::Pin2 => 2,
            PinIndex::Pin3 => 3,
            PinIndex::Pin4 => 4,
            PinIndex::Pin5 => 5,
            PinIndex::Pin6 => 6,
            PinIndex::Pin7 => 7,
            PinIndex::Pin8 => 8,
            PinIndex::Pin9 => 9,
            PinIndex::Pin10 => 10,
            PinIndex::Pin11 => 11,
            PinIndex::Pin12 => 12,
            PinIndex::Pin13 => 13,
            PinIndex::Pin14 => 14,
            PinIndex::Pin15 => 15,
        }
    }
}

/// The level of a pin.
#[derive(Clone, Copy, PartialEq, Eq, Structural, Debug)]
pub enum PinState {
    Low,
    High,
}

/// A pin's mode worked out ahead: what to clear in the mode register and
/// what to set in it.
#[derive(Clone, Copy, PartialEq, Eq, Structural, Debug)]
pub struct MemoisedMode {
    pub mask: u32,
    pub value: u32,
}

/// The register `r` with the field of `width` bits at bit `offset` set to
/// the low bits of `value`, and every other bit as it was.
pub open spec fn with_field(r: u32, offset: u32, width_mask: u32, value: u32) -> u32 {
    (r & !(width_mask << offset)) | ((value << offset) & (width_mask << offset))
}

/// The mode written for a pin is the mode that the register holds for it
/// afterwards, and the modes of the other pins are as before.
pub proof fn lemma_mode_lands_in_its_field(moder: u32, n: u32, m: u32, mode: u32)
    by (bit_vector)
    requires
        n < 16,
        m < 16,
    ensures
        (with_field(moder, (2 * n) as u32, 0b11, mode) >> ((2 * n) as u32)) & 0b11 == mode & 0b11,
        m != n ==> (with_field(moder, (2 * n) as u32, 0b11, mode) >> ((2 * m) as u32)) & 0b11 == (
        moder >> ((2 * m) as u32)) & 0b11,
{
}

/// The registers of one group of sixteen pins, as numbers: what to write to them for
/// a pin to be set, and what they say of a pin.
pub struct GPIO;

impl GPIO {
    /// The pin with number `n`.
    pub fn pin(n: u8) -> (pin: PinIndex)
        requires
            n < 16,
        ensures
            pin.spec_index() == n,
    {
        if n == 0 {
            PinIndex::Pin0
        } else if n == 1 {
            PinIndex::Pin1
        } else if n == 2 {
            PinIndex::Pin2
        } else if n == 3 {
            PinIndex::Pin3
        } else if n == 4 {
            PinIndex::Pin4
        } else if n == 5 {
            PinIndex::Pin5
        } else if n == 6 {
            PinIndex::Pin6
        } else if n == 7 {
            PinIndex::Pin7
        } else if n == 8 {
            PinIndex::Pin8
        } else if n == 9 {
            PinIndex::Pin9
        } else if n == 10 {
            PinIndex::Pin10
        } else if n == 11 {
            PinIndex::Pin11
        } else if n == 12 {
            PinIndex::Pin12
        } else if n == 13 {
            PinIndex::Pin13
        } else if n == 14 {
            PinIndex::Pin14
        } else {
            PinIndex::Pin15
        }
    }

    /// What to write to the set and reset register to drive a pin high.
    pub fn set_high(n: PinIndex) -> (word: u32)
        ensures
            word == 1u32 << (n.spec_index() as u32),
    {
        1u32 << (n.index() as u32)
    }

    /// What to write to the set and reset register to drive a pin low.
    pub fn set_low(n: PinIndex) -> (word: u32)
        ensures
            word == 1u32 << ((n.spec_index() + 16) as u32),
    {
        1u32 << ((n.index() as u32) + 16)
    }

    /// What the input register says of a pin: 1 for high, 0 for low.
    pub fn get_pin_idr(idr: u32, n: PinIndex) -> (level: u32)
        ensures
            level == (idr & (1u32 << (n.spec_index() as u32))) >> (n.spec_index() as u32),
            level == 0 || level == 1,
    {
        let n = n.index() as u32;
        assert(((idr & (1u32 << n)) >> n) == 0 || ((idr & (1u32 << n)) >> n) == 1)
            by (bit_vector)
            requires
                n < 16,
        ;
        (idr & (1u32 << n)) >> n
    }

    /// The level of a pin by the input register.
    pub fn get_state(idr: u32, n: PinIndex) -> (state: PinState)
        ensures
            state == (if (idr & (1u32 << (n.spec_index() as u32))) >> (n.spec_index() as u32)
                == 1 {
                PinState::High
            } else {
                PinState::Low
            }),
    {
        if Self::get_pin_idr(idr, n) == 1 {
            PinState::High
        } else {
            PinState::Low
        }
    }

    /// What to write to the set and reset register to turn a pin over,
    /// going by the input register.
    pub fn toggle(idr: u32, n: PinIndex) -> (word: u32)
        ensures
            word == (if (idr >> (n.spec_index() as u32)) & 1 == 1 {
                1u32 << ((n.spec_index() + 16) as u32)
            } else {
                1u32 << (n.spec_index() as u32)
            }),
    {
        let pin = (idr >> (n.index() as u32)) & 1;
        if pin == 1 {
            Self::set_low(n)
        } else {
            Self::set_high(n)
        }
    }

    /// The mode register with the mode of a pin set.
    pub fn set_mode(moder: u32, n: PinIndex, mode: u32) -> (r: u32)
        ensures
            r == with_field(moder, (2 * n.spec_index()) as u32, 0b11, mode),
    {
        let offset = (n.index() as u32) * 2;
        let mask = 0b11u32 << offset;
        let val = (mode << offset) & mask;
        (moder & !mask) | val
    }

    /// The mode of a pin worked out ahead.
    pub fn memoise_mode(n: PinIndex, mode: u32) -> (m: MemoisedMode)
        ensures
            m.mask == !(0b11u32 << ((2 * n.spec_index()) as u32)),
            m.value == (mode << ((2 * n.spec_index()) as u32)) & (0b11u32 << ((2
                * n.spec_index()) as u32)),
    {
        let offset = (n.index() as u32) * 2;
        let mask = 0b11u32 << offset;
        let value = (mode << offset) & mask;
        MemoisedMode { mask: !mask, value }
    }

    /// The mode register with a mode that was worked out ahead applied:
    /// what `set_mode` gives for the pin and the mode it was worked out
    /// for.
    pub fn apply_memoised_mode(moder: u32, mode: MemoisedMode) -> (r: u32)
        ensures
            r == (moder & mode.mask) | mode.value,
    {
        (moder & mode.mask) | mode.value
    }

    /// The input mode of a pin worked out ahead.
    pub fn memoise_mode_input(n: PinIndex) -> (m: MemoisedMode)
        ensures
            m.mask == !(0b11u32 << ((2 * n.spec_index()) as u32)),
            m.value == (0b00u32 << ((2 * n.spec_index()) as u32)) & (0b11u32 << ((2
                * n.spec_index()) as u32)),
    {
        Self::memoise_mode(n, 0b00)
    }

    /// The output mode of a pin worked out ahead.
    pub fn memoise_mode_output(n: PinIndex) -> (m: MemoisedMode)
        ensures
            m.mask == !(0b11u32 << ((2 * n.spec_index()) as u32)),
            m.value == (0b01u32 << ((2 * n.spec_index()) as u32)) & (0b11u32 << ((2
                * n.spec_index()) as u32)),
    {
        Self::memoise_mode(n, 0b01)
    }

    /// The alternate mode of a pin worked out ahead.
    pub fn memoise_mode_alternate(n: PinIndex) -> (m: MemoisedMode)
        ensures
            m.mask == !(0b11u32 << ((2 * n.spec_index()) as u32)),
            m.value == (0b10u32 << ((2 * n.spec_index()) as u32)) & (0b11u32 << ((2
                * n.spec_index()) as u32)),
    {
        Self::memoise_mode(n, 0b10)
    }

    /// The analog mode of a pin worked out ahead.
    pub fn memoise_mode_analog(n: PinIndex) -> (m: MemoisedMode)
        ensures
            m.mask == !(0b11u32 << ((2 * n.spec_index()) as u32)),
            m.value == (0b11u32 << ((2 * n.spec_index()) as u32)) & (0b11u32 << ((2
                * n.spec_index()) as u32)),
    {
        Self::memoise_mode(n, 0b11)
    }

    /// The output type register with the type of a pin set.
    pub fn set_otype(otyper: u32, n: PinIndex, otype: u32) -> (r: u32)
        ensures
            r == with_field(otyper, n.spec_index() as u32, 0b1, otype),
    {
        let offset = n.index() as u32;
        let mask = 0b1u32 << offset;
        let val = (otype << offset) & mask;
        (otyper & !mask) | val
    }

    /// The output speed register with the speed of a pin set.
    pub fn set_ospeed(ospeedr: u32, n: PinIndex, ospeed: u32) -> (r: u32)
        ensures
            r == with_field(ospeedr, (2 * n.spec_index()) as u32, 0b11, ospeed),
    {
        let offset = (n.index() as u32) * 2;
        let mask = 0b11u32 << offset;
        let val = (ospeed << offset) & mask;
        (ospeedr & !mask) | val
    }

    /// The pull register with the pull of a pin set.
    pub fn set_pull(pupdr: u32, n: PinIndex, pull: u32) -> (r: u32)
        ensures
            r == with_field(pupdr, (2 * n.spec_index()) as u32, 0b11, pull),
    {
        let offset = (n.index() as u32) * 2;
        let mask = 0b11u32 << offset;
        let val = (pull << offset) & mask;
        (pupdr & !mask) | val
    }

    /// The alternate function register of a pin with its function set: the
    /// low register holds pins 0 to 7, the high register pins 8 to 15, four
    /// bits each.
    pub fn set_af(afr: u32, n: PinIndex, af: u32) -> (r: u32)
        ensures
            r == with_field(afr, (4 * (n.spec_index() % 8)) as u32, 0b1111, af),
    {
        let n = n.index() as u32;
        let offset = if n < 8 {
            n * 4
        } else {
            (n - 8) * 4
        };
        let mask = 0b1111u32 << offset;
        let val = (af << offset) & mask;
        (afr & !mask) | val
    }
}

} // verus!
