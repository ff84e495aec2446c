//! The virtual serial port: the serial lines of the target, passed through
//! to the host.

use vstd::prelude::*;
use crate::board::{ring_len, send_ops, Board, Line, Op, OutputType, PinMode, Port, Pull, Speed};
use crate::rcc::Clocks;
use crate::uart::{
    baud_divider, baud_register, baud_settings, measure_ring, read_ring, ring_read_between,
    ring_was_measured,
};

verus! {

/// Number of stop bits of a serial line.
#[derive(Clone, Copy, PartialEq, Eq, Structural, Debug)]
pub enum StopBits {
    One,
    OnePointFive,
    Two,
}

/// Parity of a serial line.
#[derive(Clone, Copy, PartialEq, Eq, Structural, Debug)]
pub enum ParityType {
    Disabled,
    Odd,
    Event,
    Mark,
    Space,
}

/// How the host wants the serial line to be set.
#[derive(Clone, Copy, PartialEq, Eq, Structural, Debug)]
pub struct VcpConfig {
    pub stop_bits: StopBits,
    pub data_bits: u8,
    pub parity_type: ParityType,
    pub data_rate: u32,
}

impl Default for VcpConfig {
    fn default() -> (config: Self)
        ensures
            config == (VcpConfig {
                stop_bits: StopBits::One,
                data_bits: 8,
                parity_type: ParityType::Disabled,
                data_rate: 8_000,
            }),
    {
        VcpConfig {
            stop_bits: StopBits::One,
            data_bits: 8,
            parity_type: ParityType::Disabled,
            data_rate: 8_000,
        }
    }
}

/// What goes into the stop bits field for a number of stop bits.
pub open spec fn stop_field(stop_bits: StopBits) -> u8 {
    match stop_bits {
        StopBits::One => 0b00,
        StopBits::OnePointFive => 0b11,
        StopBits::Two => 0b10,
    }
}

/// Trace of setting the parity of the port. Mark and space parity are not
/// supported: the port is left as it is.
pub open spec fn parity_ops(parity: ParityType) -> Seq<Op> {
    match parity {
        ParityType::Disabled => seq![Op::UartParityOff(Port::Vcp)],
        ParityType::Odd => seq![Op::UartParityOn(Port::Vcp, true)],
        ParityType::Event => seq![Op::UartParityOn(Port::Vcp, false)],
        ParityType::Mark => Seq::empty(),
        ParityType::Space => Seq::empty(),
    }
}

/// Trace of setting the port up for a line coding: the baud rate, the word
/// length, the stop bits and the parity.
pub open spec fn config_ops(fck: u32, coding: VcpConfig) -> Seq<Op> {
    seq![
        Op::UartDivider(Port::Vcp, baud_register(baud_divider(fck, coding.data_rate)) as u32),
        Op::UartWordLength(Port::Vcp, coding.data_bits == 7, coding.data_bits == 9),
        Op::UartStopBits(Port::Vcp, stop_field(coding.stop_bits)),
    ] + parity_ops(coding.parity_type)
}

/// Trace of setting one serial line up: fast push-pull, pulled up, handed
/// to the serial port.
pub open spec fn serial_line_ops(line: Line) -> Seq<Op> {
    seq![
        Op::PinSpeed(line, Speed::VeryHigh),
        Op::PinOutputType(line, OutputType::PushPull),
        Op::PinPull(line, Pull::Up),
        Op::PinMode(line, PinMode::Alternate),
        Op::PinFunction(line, 7),
    ]
}

/// The virtual serial port.
pub struct VCP {
    /// Index in the receive ring up to which the bytes have been read.
    pub last_idx_rx: usize,
    /// Index in the transmit buffer; not in use.
    pub last_idx_tx: usize,
    /// Frequency of the clock that feeds the port, in Hz.
    pub fck: u32,
}

impl VCP {
    /// The reader's index is within the ring, and twice the clock fits in 32
    /// bits.
    pub open spec fn wf(&self) -> bool {
        &&& self.last_idx_rx <= ring_len(Port::Vcp)
        &&& 2 * self.fck <= u32::MAX
    }

    /// A port that has read nothing, fed by a clock of 72 MHz.
    pub fn new() -> (vcp: Self)
        ensures
            vcp == (VCP { last_idx_rx: 0, last_idx_tx: 0, fck: 72_000_000 }),
            vcp.wf(),
    {
        VCP { last_idx_rx: 0, last_idx_tx: 0, fck: 72_000_000 }
    }

    /// Takes the frequency of the port's clock from the clocks, sets the
    /// two serial lines up, and sets reception into the ring going.
    pub fn setup<H: Board>(&mut self, hw: &mut H, clocks: &Clocks)
        requires
            2 * clocks.spec_pclk1() <= u32::MAX,
        ensures
            *final(self) == (VCP { fck: clocks.spec_pclk1() as u32, ..*old(self) }),
            final(hw).trace() == old(hw).trace() + serial_line_ops(Line::Usart2Tx)
                + serial_line_ops(Line::Usart2Rx) + seq![Op::UartListen(Port::Vcp)],
    {
        self.fck = clocks.pclk1();

        hw.pin_speed(Line::Usart2Tx, Speed::VeryHigh);
        hw.pin_output_type(Line::Usart2Tx, OutputType::PushPull);
        hw.pin_pull(Line::Usart2Tx, Pull::Up);
        hw.pin_mode(Line::Usart2Tx, PinMode::Alternate);
        hw.pin_function(Line::Usart2Tx, 7);

        hw.pin_speed(Line::Usart2Rx, Speed::VeryHigh);
        hw.pin_output_type(Line::Usart2Rx, OutputType::PushPull);
        hw.pin_pull(Line::Usart2Rx, Pull::Up);
        hw.pin_mode(Line::Usart2Rx, PinMode::Alternate);
        hw.pin_function(Line::Usart2Rx, 7);

        hw.uart_listen(Port::Vcp);
        assert(hw.trace() =~= old(hw).trace() + serial_line_ops(Line::Usart2Tx)
            + serial_line_ops(Line::Usart2Rx) + seq![Op::UartListen(Port::Vcp)]);
    }

    /// Enables the port, both ways, and forgets what was read so far.
    pub fn start<H: Board>(&mut self, hw: &mut H)
        ensures
            *final(self) == (VCP { last_idx_rx: 0, last_idx_tx: 0, ..*old(self) }),
            final(hw).trace() == old(hw).trace().push(Op::UartStart(Port::Vcp)),
    {
        self.last_idx_rx = 0;
        self.last_idx_tx = 0;
        hw.uart_start(Port::Vcp);
    }

    /// Disables the port.
    pub fn stop<H: Board>(&self, hw: &mut H)
        ensures
            final(hw).trace() == old(hw).trace().push(Op::UartStop(Port::Vcp)),
    {
        hw.uart_stop(Port::Vcp);
    }

    /// Number of bytes that wait in the receive ring.
    pub fn rx_bytes_available<H: Board>(&self, hw: &mut H) -> (n: usize)
        requires
            self.last_idx_rx <= ring_len(Port::Vcp),
        ensures
            exists|head: usize| #[trigger]
                ring_was_measured(
                    Port::Vcp,
                    self.last_idx_rx,
                    head,
                    old(hw).trace(),
                    final(hw).trace(),
                    n,
                ),
    {
        measure_ring(hw, Port::Vcp, self.last_idx_rx)
    }

    /// Takes the bytes that wait in the receive ring into the start of
    /// `rx`, as far as there is room, and returns their number.
    pub fn read<H: Board>(&mut self, hw: &mut H, rx: &mut [u8]) -> (n: usize)
        requires
            old(self).last_idx_rx <= ring_len(Port::Vcp),
        ensures
            final(self).fck == old(self).fck,
            final(self).last_idx_tx == old(self).last_idx_tx,
            final(self).last_idx_rx <= ring_len(Port::Vcp),
            final(rx)@.len() == old(rx)@.len(),
            n <= old(rx)@.len(),
            final(rx)@.skip(n as int) == old(rx)@.skip(n as int),
            ring_read_between(
                Port::Vcp,
                old(self).last_idx_rx,
                old(rx)@.len(),
                old(hw).trace(),
                final(hw).trace(),
                final(rx)@.take(n as int),
                final(self).last_idx_rx,
            ),
    {
        let (n, next) = read_ring(hw, Port::Vcp, self.last_idx_rx, rx);
        self.last_idx_rx = next;
        n
    }

    /// Whether a line coding can be set: 7, 8 or 9 data bits, and a data
    /// rate other than 0.
    pub open spec fn supports(coding: VcpConfig) -> bool {
        7 <= coding.data_bits <= 9 && coding.data_rate > 0
    }

    /// Sets the port up for a line coding. The port has to be stopped
    /// meanwhile.
    pub fn set_config<H: Board>(&mut self, hw: &mut H, coding: VcpConfig)
        requires
            Self::supports(coding),
            2 * old(self).fck <= u32::MAX,
        ensures
            *final(self) == *old(self),
            final(hw).trace() == old(hw).trace() + config_ops(old(self).fck, coding),
    {
        let (_div, brr) = baud_settings(self.fck, coding.data_rate);
        hw.uart_set_divider(Port::Vcp, brr);

        if coding.data_bits == 7 {
            hw.uart_set_word_length(Port::Vcp, true, false);
        } else if coding.data_bits == 8 {
            hw.uart_set_word_length(Port::Vcp, false, false);
        } else {
            hw.uart_set_word_length(Port::Vcp, false, true);
        }

        match coding.stop_bits {
            StopBits::One => hw.uart_set_stop_bits(Port::Vcp, 0b00),
            StopBits::OnePointFive => hw.uart_set_stop_bits(Port::Vcp, 0b11),
            StopBits::Two => hw.uart_set_stop_bits(Port::Vcp, 0b10),
        }
        let ghost set = hw.trace();

        match coding.parity_type {
            ParityType::Disabled => hw.uart_parity_off(Port::Vcp),
            ParityType::Odd => hw.uart_parity_on(Port::Vcp, true),
            ParityType::Event => hw.uart_parity_on(Port::Vcp, false),
            ParityType::Mark => {},
            ParityType::Space => {},
        }
        assert(hw.trace() =~= set + parity_ops(coding.parity_type));
        assert(hw.trace() =~= old(hw).trace() + config_ops(self.fck, coding));
    }

    /// Whether the port has sent all it was given.
    pub fn is_tx_idle<H: Board>(&self, hw: &mut H) -> (idle: bool)
        ensures
            final(hw).trace() == old(hw).trace().push(Op::UartIdle(Port::Vcp, idle)),
    {
        hw.uart_tx_idle(Port::Vcp)
    }

    /// Starts sending the `len` bytes of `tx`.
    pub fn write<H: Board>(&mut self, hw: &mut H, tx: &[u8], len: usize)
        requires
            tx@.len() == len,
            len <= ring_len(Port::Vcp),
        ensures
            *final(self) == *old(self),
            final(hw).trace() == old(hw).trace() + send_ops(Port::Vcp, tx@),
    {
        hw.uart_send(Port::Vcp, tx);
    }
}

} // verus!
