//! The hardware of the probe as the protocol engines see it.
//!
//! [`Board`] is the only way this crate reaches a peripheral. Each operation
//! that changes or samples the outside world appends to the board's ghost
//! [`Board::trace`]; the entry of a sampling operation holds the value that
//! came back. Two boards live in this crate: one that exists in memory
//! only, and one that keeps the trace of any set of peripherals handed to
//! it.

use vstd::prelude::*;
use crate::spi::{SPIPrescaler, SpiBus};

verus! {

/// A named line of the probe.
#[derive(Clone, Copy, PartialEq, Eq, Structural, Debug)]
pub enum Line {
    LedRed,
    LedGreen,
    LedBlue,
    T5vEn,
    TvccEn,
    Reset,
    GndDetect,
    Usart1Rx,
    Usart2Rx,
    Usart2Tx,
    /// SWCLK in SWD mode; wired to `Spi2Clk`.
    Spi1Clk,
    /// SWDIO as the probe reads it.
    Spi1Miso,
    /// SWDIO as the probe drives it; TMS in JTAG mode.
    Spi1Mosi,
    /// TCK in JTAG mode; wired to `Spi1Clk`.
    Spi2Clk,
    /// TDO.
    Spi2Miso,
    /// TDI.
    Spi2Mosi,
    UsbDm,
    UsbDp,
    UsbSel,
}

/// Direction of a line.
#[derive(Clone, Copy, PartialEq, Eq, Structural, Debug)]
pub enum PinMode {
    Input,
    Output,
    Alternate,
    Analog,
}

/// How a line drives its output.
#[derive(Clone, Copy, PartialEq, Eq, Structural, Debug)]
pub enum OutputType {
    PushPull,
    OpenDrain,
}

/// How fast a line's output switches.
#[derive(Clone, Copy, PartialEq, Eq, Structural, Debug)]
pub enum Speed {
    Low,
    Medium,
    High,
    VeryHigh,
}

/// What holds a line that nothing drives.
#[derive(Clone, Copy, PartialEq, Eq, Structural, Debug)]
pub enum Pull {
    Floating,
    Up,
    Down,
}

/// One of the two serial ports.
#[derive(Clone, Copy, PartialEq, Eq, Structural, Debug)]
pub enum Port {
    /// Receives the target's trace output.
    Swo,
    /// The virtual serial port.
    Vcp,
}

/// One operation on the hardware. Where the operation samples something, the
/// entry holds the sampled value.
#[derive(Clone, Copy, PartialEq, Eq, Structural, Debug)]
pub enum Op {
    /// A line was driven high (`true`) or low.
    PinWrite(Line, bool),
    /// The direction of a line was set.
    PinMode(Line, PinMode),
    /// A line was sampled, and this was its level.
    PinRead(Line, bool),
    /// The SPI peripheral was set up for SWD and enabled.
    SpiSetupSwd(SpiBus),
    /// The SPI peripheral was set up for JTAG, left disabled.
    SpiSetupJtag(SpiBus),
    /// The SPI peripheral finished its transfer and was disabled.
    SpiDisable(SpiBus),
    /// The SPI clock divider was set.
    SpiPrescaler(SpiBus, SPIPrescaler),
    /// Four bits were shifted out.
    SpiTx4(SpiBus, u8),
    /// Eight bits were shifted out.
    SpiTx8(SpiBus, u8),
    /// Four clocks were sent, and these bits came in.
    SpiRx4(SpiBus, u8),
    /// Five clocks were sent, and these bits came in.
    SpiRx5(SpiBus, u8),
    /// The receive FIFO was emptied.
    SpiDrain(SpiBus),
    /// The SPI peripheral was waited for until idle.
    SpiWaitBusy(SpiBus),
    /// The data phase of an SWD read ran: 32 data bits and the parity bit
    /// came in, and the probe took the bus back.
    SwdReadData(SpiBus, u32, u8),
    /// The data phase of an SWD write ran with this word and parity bit.
    SwdWriteData(SpiBus, u32, u8),
    /// A DMA exchange of this many bytes was started on the SPI peripheral.
    /// One `Shifted` entry per byte follows.
    Exchange(SpiBus, usize),
    /// Within an exchange: this byte went out and this byte came in.
    Shifted(u8, u8),
    /// The timer was waited on for this many ticks.
    Wait(u32),
    /// The core spun for this many cycles.
    Spin(u32),
    /// Reception into the receiver's ring was started from its beginning.
    UartStart(Port),
    /// The receiver was stopped.
    UartStop(Port),
    /// The receiver's baud rate register was written.
    UartDivider(Port, u32),
    /// The output type of a line was set.
    PinOutputType(Line, OutputType),
    /// The output speed of a line was set.
    PinSpeed(Line, Speed),
    /// The pull of a line was set.
    PinPull(Line, Pull),
    /// The peripheral function of a line was chosen.
    PinFunction(Line, u8),
    /// Reception by DMA into the port's ring was set going.
    UartListen(Port),
    /// The two word length bits of the port were written.
    UartWordLength(Port, bool, bool),
    /// The stop bits field of the port was written.
    UartStopBits(Port, u8),
    /// Parity was switched off on the port.
    UartParityOff(Port),
    /// Parity was switched on on the port: odd (`true`) or even.
    UartParityOn(Port, bool),
    /// The receiver was asked whether it is enabled, and this was the
    /// answer.
    UartActive(Port, bool),
    /// The receiver was asked for the index in its ring at which the next
    /// byte will go, and this was the answer.
    UartHead(Port, usize),
    /// This many bytes were copied out of the receiver's ring, from this
    /// index on. One `RingByte` entry per byte follows.
    RingCopy(Port, usize, usize),
    /// Within a copy out of a ring: this byte was copied.
    RingByte(u8),
    /// The port was asked whether it has sent all it was given, and this
    /// was the answer.
    UartIdle(Port, bool),
    /// The sending of this many bytes by DMA was started on the port. One
    /// `Sent` entry per byte follows.
    UartSend(Port, usize),
    /// Within a sending: this byte was handed over.
    Sent(u8),
}

/// Length of the ring that a receiver fills.
pub open spec fn ring_len(port: Port) -> nat {
    match port {
        Port::Swo => 256,
        Port::Vcp => 512,
    }
}

/// The board.
pub trait Board {
    /// Everything done to the hardware so far, oldest first.
    spec fn trace(&self) -> Seq<Op>;


    /// Drives `line` high or low.
    fn pin_write(&mut self, line: Line, high: bool)
        ensures
            final(self).trace() == old(self).trace().push(Op::PinWrite(line, high)),
    ;

    /// Sets the direction of `line`.
    fn pin_mode(&mut self, line: Line, mode: PinMode)
        ensures
            final(self).trace() == old(self).trace().push(Op::PinMode(line, mode)),
    ;

    /// Samples `line`.
    fn pin_read(&mut self, line: Line) -> (high: bool)
        ensures
            final(self).trace() == old(self).trace().push(Op::PinRead(line, high)),
    ;

    /// Sets the SPI peripheral up for SWD and enables it.
    fn spi_setup_swd(&mut self, bus: SpiBus)
        ensures
            final(self).trace() == old(self).trace().push(Op::SpiSetupSwd(bus)),
    ;

    /// Sets the SPI peripheral up for JTAG and leaves it disabled.
    fn spi_setup_jtag(&mut self, bus: SpiBus)
        ensures
            final(self).trace() == old(self).trace().push(Op::SpiSetupJtag(bus)),
    ;

    /// Waits for the transfer in flight, then disables the SPI peripheral.
    fn spi_disable(&mut self, bus: SpiBus)
        ensures
            final(self).trace() == old(self).trace().push(Op::SpiDisable(bus)),
    ;

    /// Sets the SPI clock divider.
    fn spi_set_prescaler(&mut self, bus: SpiBus, prescaler: SPIPrescaler)
        ensures
            final(self).trace() == old(self).trace().push(Op::SpiPrescaler(bus, prescaler)),
    ;

    /// Shifts out the low four bits of `data`.
    fn spi_tx4(&mut self, bus: SpiBus, data: u8)
        ensures
            final(self).trace() == old(self).trace().push(Op::SpiTx4(bus, data)),
    ;

    /// Shifts out `data`.
    fn spi_tx8(&mut self, bus: SpiBus, data: u8)
        ensures
            final(self).trace() == old(self).trace().push(Op::SpiTx8(bus, data)),
    ;

    /// Sends four clocks and returns what came in.
    fn spi_rx4(&mut self, bus: SpiBus) -> (data: u8)
        ensures
            final(self).trace() == old(self).trace().push(Op::SpiRx4(bus, data)),
    ;

    /// Sends five clocks and returns what came in.
    fn spi_rx5(&mut self, bus: SpiBus) -> (data: u8)
        ensures
            final(self).trace() == old(self).trace().push(Op::SpiRx5(bus, data)),
    ;

    /// Empties the receive FIFO.
    fn spi_drain(&mut self, bus: SpiBus)
        ensures
            final(self).trace() == old(self).trace().push(Op::SpiDrain(bus)),
    ;

    /// Waits until the SPI peripheral is idle.
    fn spi_wait_busy(&mut self, bus: SpiBus)
        ensures
            final(self).trace() == old(self).trace().push(Op::SpiWaitBusy(bus)),
    ;

    /// Runs the data phase of an SWD read: clocks 32 data bits in, samples the
    /// parity bit, sends the turnaround clock and takes the bus back. Returns
    /// the data and the parity bit.
    fn swd_rdata_phase(&mut self, bus: SpiBus) -> (r: (u32, u8))
        ensures
            final(self).trace() == old(self).trace().push(Op::SwdReadData(bus, r.0, r.1)),
    ;

    /// Runs the data phase of an SWD write: clocks out 32 data bits, the
    /// parity bit and trailing idle bits.
    fn swd_wdata_phase(&mut self, bus: SpiBus, data: u32, parity: u8)
        ensures
            final(self).trace() == old(self).trace().push(Op::SwdWriteData(bus, data, parity)),
    ;

    /// Shifts `tx` out through the SPI peripheral by DMA and stores what comes
    /// in at the start of `rx`.
    fn jtag_exchange(&mut self, bus: SpiBus, tx: &[u8], rx: &mut [u8])
        requires
            tx@.len() <= old(rx)@.len(),
        ensures
            final(rx)@.len() == old(rx)@.len(),
            final(rx)@.skip(tx@.len() as int) == old(rx)@.skip(tx@.len() as int),
            final(self).trace() == old(self).trace() + exchange_ops(
                bus,
                tx@,
                final(rx)@.take(tx@.len() as int),
            ),
    ;

    /// The timer's counter. It counts down.
    fn now(&self) -> u32;

    /// Waits for `ticks` ticks of the timer.
    fn delay_ticks(&mut self, ticks: u32)
        ensures
            final(self).trace() == old(self).trace().push(Op::Wait(ticks)),
    ;

    /// Waits until `ticks` ticks have passed since the counter read `last`,
    /// and returns the counter.
    fn delay_ticks_from_last(&mut self, ticks: u32, last: u32) -> (now: u32)
        ensures
            final(self).trace() == old(self).trace().push(Op::Wait(ticks)),
    ;

    /// Starts reception into the receiver's ring, from its beginning.
    fn uart_start(&mut self, port: Port)
        ensures
            final(self).trace() == old(self).trace().push(Op::UartStart(port)),
    ;

    /// Stops the receiver.
    fn uart_stop(&mut self, port: Port)
        ensures
            final(self).trace() == old(self).trace().push(Op::UartStop(port)),
    ;

    /// Writes the receiver's baud rate register.
    fn uart_set_divider(&mut self, port: Port, brr: u32)
        ensures
            final(self).trace() == old(self).trace().push(Op::UartDivider(port, brr)),
    ;

    /// Whether the receiver is enabled.
    fn uart_is_active(&mut self, port: Port) -> (active: bool)
        ensures
            final(self).trace() == old(self).trace().push(Op::UartActive(port, active)),
    ;

    /// The index in the ring at which the next received byte will go. It is
    /// never beyond the ring.
    fn uart_dma_index(&mut self, port: Port) -> (head: usize)
        ensures
            head <= ring_len(port),
            final(self).trace() == old(self).trace().push(Op::UartHead(port, head)),
    ;

    /// Copies bytes of the receiver's ring, from index `from` on, into
    /// `dst`.
    fn uart_copy(&mut self, port: Port, from: usize, dst: &mut [u8])
        requires
            from + old(dst)@.len() <= ring_len(port),
        ensures
            final(dst)@.len() == old(dst)@.len(),
            final(self).trace() == old(self).trace() + copy_ops(port, from, final(dst)@),
    ;

    /// Sets reception by DMA into the port's ring going.
    fn uart_listen(&mut self, port: Port)
        ensures
            final(self).trace() == old(self).trace().push(Op::UartListen(port)),
    ;

    /// Writes the two word length bits of the port.
    fn uart_set_word_length(&mut self, port: Port, m1: bool, m0: bool)
        ensures
            final(self).trace() == old(self).trace().push(Op::UartWordLength(port, m1, m0)),
    ;

    /// Writes the stop bits field of the port.
    fn uart_set_stop_bits(&mut self, port: Port, field: u8)
        ensures
            final(self).trace() == old(self).trace().push(Op::UartStopBits(port, field)),
    ;

    /// Switches parity off on the port.
    fn uart_parity_off(&mut self, port: Port)
        ensures
            final(self).trace() == old(self).trace().push(Op::UartParityOff(port)),
    ;

    /// Switches parity on on the port: odd (`true`) or even.
    fn uart_parity_on(&mut self, port: Port, odd: bool)
        ensures
            final(self).trace() == old(self).trace().push(Op::UartParityOn(port, odd)),
    ;

    /// Starts sending `data` on the port by DMA.
    fn uart_send(&mut self, port: Port, data: &[u8])
        ensures
            final(self).trace() == old(self).trace() + send_ops(port, data@),
    ;

    /// Whether the port has sent all it was given.
    fn uart_tx_idle(&mut self, port: Port) -> (idle: bool)
        ensures
            final(self).trace() == old(self).trace().push(Op::UartIdle(port, idle)),
    ;

    /// Sets the output type of `line`.
    fn pin_output_type(&mut self, line: Line, kind: OutputType)
        ensures
            final(self).trace() == old(self).trace().push(Op::PinOutputType(line, kind)),
    ;

    /// Sets the output speed of `line`.
    fn pin_speed(&mut self, line: Line, speed: Speed)
        ensures
            final(self).trace() == old(self).trace().push(Op::PinSpeed(line, speed)),
    ;

    /// Sets the pull of `line`.
    fn pin_pull(&mut self, line: Line, pull: Pull)
        ensures
            final(self).trace() == old(self).trace().push(Op::PinPull(line, pull)),
    ;

    /// Chooses the peripheral function of `line`.
    fn pin_function(&mut self, line: Line, function: u8)
        ensures
            final(self).trace() == old(self).trace().push(Op::PinFunction(line, function)),
    ;

    /// Spins for `cycles` core cycles.
    fn spin(&mut self, cycles: u32)
        ensures
            final(self).trace() == old(self).trace().push(Op::Spin(cycles)),
    ;
}

/// Trace of copying `bytes` out of a receiver's ring, from index `from` on.
pub open spec fn copy_ops(port: Port, from: usize, bytes: Seq<u8>) -> Seq<Op> {
    seq![Op::RingCopy(port, from, bytes.len() as usize)] + Seq::new(
        bytes.len(),
        |i: int| Op::RingByte(bytes[i]),
    )
}

/// Trace of handing `data` to a port for sending.
pub open spec fn send_ops(port: Port, data: Seq<u8>) -> Seq<Op> {
    seq![Op::UartSend(port, data.len() as usize)] + Seq::new(data.len(), |i: int| Op::Sent(data[i]))
}

/// Trace of one DMA exchange in which `tx` went out and `rx` came in.
pub open spec fn exchange_ops(bus: SpiBus, tx: Seq<u8>, rx: Seq<u8>) -> Seq<Op>
    recommends
        tx.len() == rx.len(),
{
    seq![Op::Exchange(bus, tx.len() as usize)] + Seq::new(
        tx.len(),
        |i: int| Op::Shifted(tx[i], rx[i]),
    )
}

} // verus!
