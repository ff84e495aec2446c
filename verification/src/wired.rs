//! The board that real peripherals make up.
//!
//! [`Wires`] is what a program has to supply for its peripherals: one
//! function for each operation, with nothing to prove. [`Traced`] makes a
//! [`Board`](crate::board::Board) of it by keeping the trace.

use vstd::prelude::*;
use crate::board::{
    copy_ops, exchange_ops, ring_len, send_ops, Line, Op, OutputType, PinMode, Port, Pull, Speed,
};
use crate::bits::parity_of;
use crate::sim::{
    ack_pattern, only_recorded, recorded, recorded_all, same_clock, same_lines, same_port,
    same_ports, same_script, same_target, target_step, target_word, SimBoard,
};
use crate::spi::{SPIPrescaler, SpiBus};

verus! {

/// The peripherals of a probe. Each function performs the operation of the
/// same name of [`Board`](crate::board::Board).
pub trait Wires {
    fn pin_write(&mut self, line: Line, high: bool);

    fn pin_mode(&mut self, line: Line, mode: PinMode);

    fn pin_read(&mut self, line: Line) -> bool;

    fn pin_output_type(&mut self, line: Line, kind: OutputType);

    fn pin_speed(&mut self, line: Line, speed: Speed);

    fn pin_pull(&mut self, line: Line, pull: Pull);

    fn pin_function(&mut self, line: Line, function: u8);

    fn spi_setup_swd(&mut self, bus: SpiBus);

    fn spi_setup_jtag(&mut self, bus: SpiBus);

    fn spi_disable(&mut self, bus: SpiBus);

    fn spi_set_prescaler(&mut self, bus: SpiBus, prescaler: SPIPrescaler);

    fn spi_tx4(&mut self, bus: SpiBus, data: u8);

    fn spi_tx8(&mut self, bus: SpiBus, data: u8);

    fn spi_rx4(&mut self, bus: SpiBus) -> u8;

    fn spi_rx5(&mut self, bus: SpiBus) -> u8;

    fn spi_drain(&mut self, bus: SpiBus);

    fn spi_wait_busy(&mut self, bus: SpiBus);

    fn swd_rdata_phase(&mut self, bus: SpiBus) -> (u32, u8);

    fn swd_wdata_phase(&mut self, bus: SpiBus, data: u32, parity: u8);

    /// Shifts `tx` out and stores what comes in in `rx`, which is as long
    /// as `tx`, and stays so: a slice keeps its length.
    fn jtag_exchange(&mut self, bus: SpiBus, tx: &[u8], rx: &mut [u8])
        requires
            tx@.len() == old(rx)@.len(),
        ensures
            final(rx)@.len() == old(rx)@.len(),
    ;

    fn now(&self) -> u32;

    fn delay_ticks(&mut self, ticks: u32);

    fn delay_ticks_from_last(&mut self, ticks: u32, last: u32) -> u32;

    fn spin(&mut self, cycles: u32);

    fn uart_start(&mut self, port: Port);

    fn uart_stop(&mut self, port: Port);

    fn uart_listen(&mut self, port: Port);

    fn uart_set_divider(&mut self, port: Port, brr: u32);

    fn uart_set_word_length(&mut self, port: Port, m1: bool, m0: bool);

    fn uart_set_stop_bits(&mut self, port: Port, field: u8);

    fn uart_parity_off(&mut self, port: Port);

    fn uart_parity_on(&mut self, port: Port, odd: bool);

    fn uart_is_active(&mut self, port: Port) -> bool;

    fn uart_dma_index(&mut self, port: Port) -> usize;

    /// Copies bytes of the port's ring, from index `from` on, into `dst`.
    /// The bytes asked for lie within the ring. `dst` keeps its length, as
    /// a slice does.
    fn uart_copy(&mut self, port: Port, from: usize, dst: &mut [u8])
        requires
            from + old(dst)@.len() <= ring_len(port),
        ensures
            final(dst)@.len() == old(dst)@.len(),
    ;

    fn uart_send(&mut self, port: Port, data: &[u8]);

    fn uart_tx_idle(&mut self, port: Port) -> bool;
}

/// Peripherals with the trace of what was done to them.
pub struct Traced<W: Wires> {
    wires: W,
    trace: Ghost<Seq<Op>>,
}

impl<W: Wires> Traced<W> {
    /// The peripherals that the board holds.
    pub closed spec fn held(&self) -> W {
        self.wires
    }

    /// The peripherals, with nothing done to them yet.
    pub fn new(wires: W) -> (board: Self)
        ensures
            board.held() == wires,
            crate::board::Board::trace(&board) == Seq::<Op>::empty(),
    {
        Traced { wires, trace: Ghost(Seq::empty()) }
    }

    /// The peripherals that the board holds, to be used directly. What the
    /// caller leaves behind the reference is what the board then holds;
    /// nothing of it enters the trace.
    pub fn wires(&mut self) -> (wires: &mut W)
        ensures
            *wires == old(self).held(),
            final(self).held() == *final(wires),
            crate::board::Board::trace(final(self)) == crate::board::Board::trace(old(self)),
    {
        &mut self.wires
    }
}

impl<W: Wires> crate::board::Board for Traced<W> {
    closed spec fn trace(&self) -> Seq<Op> {
        self.trace@
    }

    fn pin_write(&mut self, line: Line, high: bool) {
        self.wires.pin_write(line, high);
        self.trace = Ghost(self.trace@.push(Op::PinWrite(line, high)));
    }

    fn pin_mode(&mut self, line: Line, mode: PinMode) {
        self.wires.pin_mode(line, mode);
        self.trace = Ghost(self.trace@.push(Op::PinMode(line, mode)));
    }

    fn pin_read(&mut self, line: Line) -> (high: bool) {
        let high = self.wires.pin_read(line);
        self.trace = Ghost(self.trace@.push(Op::PinRead(line, high)));
        high
    }

    fn spi_setup_swd(&mut self, bus: SpiBus) {
        self.wires.spi_setup_swd(bus);
        self.trace = Ghost(self.trace@.push(Op::SpiSetupSwd(bus)));
    }

    fn spi_setup_jtag(&mut self, bus: SpiBus) {
        self.wires.spi_setup_jtag(bus);
        self.trace = Ghost(self.trace@.push(Op::SpiSetupJtag(bus)));
    }

    fn spi_disable(&mut self, bus: SpiBus) {
        self.wires.spi_disable(bus);
        self.trace = Ghost(self.trace@.push(Op::SpiDisable(bus)));
    }

    fn spi_set_prescaler(&mut self, bus: SpiBus, prescaler: SPIPrescaler) {
        self.wires.spi_set_prescaler(bus, prescaler);
        self.trace = Ghost(self.trace@.push(Op::SpiPrescaler(bus, prescaler)));
    }

    fn spi_tx4(&mut self, bus: SpiBus, data: u8) {
        self.wires.spi_tx4(bus, data);
        self.trace = Ghost(self.trace@.push(Op::SpiTx4(bus, data)));
    }

    fn spi_tx8(&mut self, bus: SpiBus, data: u8) {
        self.wires.spi_tx8(bus, data);
        self.trace = Ghost(self.trace@.push(Op::SpiTx8(bus, data)));
    }

    fn spi_rx4(&mut self, bus: SpiBus) -> (data: u8) {
        let data = self.wires.spi_rx4(bus);
        self.trace = Ghost(self.trace@.push(Op::SpiRx4(bus, data)));
        data
    }

    fn spi_rx5(&mut self, bus: SpiBus) -> (data: u8) {
        let data = self.wires.spi_rx5(bus);
        self.trace = Ghost(self.trace@.push(Op::SpiRx5(bus, data)));
        data
    }

    fn spi_drain(&mut self, bus: SpiBus) {
        self.wires.spi_drain(bus);
        self.trace = Ghost(self.trace@.push(Op::SpiDrain(bus)));
    }

    fn spi_wait_busy(&mut self, bus: SpiBus) {
        self.wires.spi_wait_busy(bus);
        self.trace = Ghost(self.trace@.push(Op::SpiWaitBusy(bus)));
    }

    fn swd_rdata_phase(&mut self, bus: SpiBus) -> (r: (u32, u8)) {
        let r = self.wires.swd_rdata_phase(bus);
        self.trace = Ghost(self.trace@.push(Op::SwdReadData(bus, r.0, r.1)));
        r
    }

    fn swd_wdata_phase(&mut self, bus: SpiBus, data: u32, parity: u8) {
        self.wires.swd_wdata_phase(bus, data, parity);
        self.trace = Ghost(self.trace@.push(Op::SwdWriteData(bus, data, parity)));
    }

    fn jtag_exchange(&mut self, bus: SpiBus, tx: &[u8], rx: &mut [u8]) {
        let n = tx.len();
        let head = crate::slices::head_mut(rx, n);
        self.wires.jtag_exchange(bus, tx, head);
        let ghost got = head@;
        proof {
            assert(rx@.take(n as int) =~= got);
            assert(rx@.skip(n as int) =~= old(rx)@.skip(n as int));
        }
        self.trace = Ghost(self.trace@ + exchange_ops(bus, tx@, got));
    }

    fn now(&self) -> (now: u32) {
        self.wires.now()
    }

    fn delay_ticks(&mut self, ticks: u32) {
        self.wires.delay_ticks(ticks);
        self.trace = Ghost(self.trace@.push(Op::Wait(ticks)));
    }

    fn delay_ticks_from_last(&mut self, ticks: u32, last: u32) -> (now: u32) {
        let now = self.wires.delay_ticks_from_last(ticks, last);
        self.trace = Ghost(self.trace@.push(Op::Wait(ticks)));
        now
    }

    fn uart_start(&mut self, port: Port) {
        self.wires.uart_start(port);
        self.trace = Ghost(self.trace@.push(Op::UartStart(port)));
    }

    fn uart_stop(&mut self, port: Port) {
        self.wires.uart_stop(port);
        self.trace = Ghost(self.trace@.push(Op::UartStop(port)));
    }

    fn uart_set_divider(&mut self, port: Port, brr: u32) {
        self.wires.uart_set_divider(port, brr);
        self.trace = Ghost(self.trace@.push(Op::UartDivider(port, brr)));
    }

    fn uart_is_active(&mut self, port: Port) -> (active: bool) {
        let active = self.wires.uart_is_active(port);
        self.trace = Ghost(self.trace@.push(Op::UartActive(port, active)));
        active
    }

    fn uart_dma_index(&mut self, port: Port) -> (head: usize) {
        let index = self.wires.uart_dma_index(port);
        let len: usize = match port {
            Port::Swo => 256,
            Port::Vcp => 512,
        };
        // An index beyond the ring is taken for its end.
        let head = if index <= len {
            index
        } else {
            len
        };
        self.trace = Ghost(self.trace@.push(Op::UartHead(port, head)));
        head
    }

    fn uart_copy(&mut self, port: Port, from: usize, dst: &mut [u8]) {
        self.wires.uart_copy(port, from, dst);
        self.trace = Ghost(self.trace@ + copy_ops(port, from, dst@));
    }

    fn uart_listen(&mut self, port: Port) {
        self.wires.uart_listen(port);
        self.trace = Ghost(self.trace@.push(Op::UartListen(port)));
    }

    fn uart_set_word_length(&mut self, port: Port, m1: bool, m0: bool) {
        self.wires.uart_set_word_length(port, m1, m0);
        self.trace = Ghost(self.trace@.push(Op::UartWordLength(port, m1, m0)));
    }

    fn uart_set_stop_bits(&mut self, port: Port, field: u8) {
        self.wires.uart_set_stop_bits(port, field);
        self.trace = Ghost(self.trace@.push(Op::UartStopBits(port, field)));
    }

    fn uart_parity_off(&mut self, port: Port) {
        self.wires.uart_parity_off(port);
        self.trace = Ghost(self.trace@.push(Op::UartParityOff(port)));
    }

    fn uart_parity_on(&mut self, port: Port, odd: bool) {
        self.wires.uart_parity_on(port, odd);
        self.trace = Ghost(self.trace@.push(Op::UartParityOn(port, odd)));
    }

    fn uart_send(&mut self, port: Port, data: &[u8]) {
        self.wires.uart_send(port, data);
        self.trace = Ghost(self.trace@ + send_ops(port, data@));
    }

    fn uart_tx_idle(&mut self, port: Port) -> (idle: bool) {
        let idle = self.wires.uart_tx_idle(port);
        self.trace = Ghost(self.trace@.push(Op::UartIdle(port, idle)));
        idle
    }

    fn pin_output_type(&mut self, line: Line, kind: OutputType) {
        self.wires.pin_output_type(line, kind);
        self.trace = Ghost(self.trace@.push(Op::PinOutputType(line, kind)));
    }

    fn pin_speed(&mut self, line: Line, speed: Speed) {
        self.wires.pin_speed(line, speed);
        self.trace = Ghost(self.trace@.push(Op::PinSpeed(line, speed)));
    }

    fn pin_pull(&mut self, line: Line, pull: Pull) {
        self.wires.pin_pull(line, pull);
        self.trace = Ghost(self.trace@.push(Op::PinPull(line, pull)));
    }

    fn pin_function(&mut self, line: Line, function: u8) {
        self.wires.pin_function(line, function);
        self.trace = Ghost(self.trace@.push(Op::PinFunction(line, function)));
    }

    fn spin(&mut self, cycles: u32) {
        self.wires.spin(cycles);
        self.trace = Ghost(self.trace@.push(Op::Spin(cycles)));
    }
}

/// The board in memory can stand in for peripherals.
impl Wires for SimBoard {
    fn pin_write(&mut self, line: Line, high: bool)
        ensures
            recorded(*old(self), *final(self), Op::PinWrite(line, high)),
            final(self).looped() == old(self).looped(),
            forall|other: Line|
                (#[trigger] final(self).level(other)) == (if other == line || (old(self).looped()
                    && line == Line::Spi2Mosi && other == Line::Spi2Miso) {
                    high
                } else {
                    old(self).level(other)
                }),
            same_target(*old(self), *final(self)),
            same_script(*old(self), *final(self)),
            same_ports(*old(self), *final(self)),
            same_clock(*old(self), *final(self)),
    {
        <SimBoard as crate::board::Board>::pin_write(self, line, high)
    }

    fn pin_mode(&mut self, line: Line, mode: PinMode)
        ensures
            only_recorded(*old(self), *final(self), Op::PinMode(line, mode)),
    {
        <SimBoard as crate::board::Board>::pin_mode(self, line, mode)
    }

    fn pin_read(&mut self, line: Line) -> (high: bool)
        ensures
            high == old(self).level(line),
            only_recorded(*old(self), *final(self), Op::PinRead(line, high)),
    {
        <SimBoard as crate::board::Board>::pin_read(self, line)
    }

    fn pin_output_type(&mut self, line: Line, kind: OutputType)
        ensures
            only_recorded(*old(self), *final(self), Op::PinOutputType(line, kind)),
    {
        <SimBoard as crate::board::Board>::pin_output_type(self, line, kind)
    }

    fn pin_speed(&mut self, line: Line, speed: Speed)
        ensures
            only_recorded(*old(self), *final(self), Op::PinSpeed(line, speed)),
    {
        <SimBoard as crate::board::Board>::pin_speed(self, line, speed)
    }

    fn pin_pull(&mut self, line: Line, pull: Pull)
        ensures
            only_recorded(*old(self), *final(self), Op::PinPull(line, pull)),
    {
        <SimBoard as crate::board::Board>::pin_pull(self, line, pull)
    }

    fn pin_function(&mut self, line: Line, function: u8)
        ensures
            only_recorded(*old(self), *final(self), Op::PinFunction(line, function)),
    {
        <SimBoard as crate::board::Board>::pin_function(self, line, function)
    }

    fn spi_setup_swd(&mut self, bus: SpiBus)
        ensures
            only_recorded(*old(self), *final(self), Op::SpiSetupSwd(bus)),
    {
        <SimBoard as crate::board::Board>::spi_setup_swd(self, bus)
    }

    fn spi_setup_jtag(&mut self, bus: SpiBus)
        ensures
            only_recorded(*old(self), *final(self), Op::SpiSetupJtag(bus)),
    {
        <SimBoard as crate::board::Board>::spi_setup_jtag(self, bus)
    }

    fn spi_disable(&mut self, bus: SpiBus)
        ensures
            only_recorded(*old(self), *final(self), Op::SpiDisable(bus)),
    {
        <SimBoard as crate::board::Board>::spi_disable(self, bus)
    }

    fn spi_set_prescaler(&mut self, bus: SpiBus, prescaler: SPIPrescaler)
        ensures
            only_recorded(*old(self), *final(self), Op::SpiPrescaler(bus, prescaler)),
    {
        <SimBoard as crate::board::Board>::spi_set_prescaler(self, bus, prescaler)
    }

    fn spi_tx4(&mut self, bus: SpiBus, data: u8)
        ensures
            only_recorded(*old(self), *final(self), Op::SpiTx4(bus, data)),
    {
        <SimBoard as crate::board::Board>::spi_tx4(self, bus, data)
    }

    fn spi_tx8(&mut self, bus: SpiBus, data: u8)
        ensures
            recorded(*old(self), *final(self), Op::SpiTx8(bus, data)),
            final(self).target() == target_step(old(self).target(), Op::SpiTx8(bus, data)),
            final(self).spoils_parity() == old(self).spoils_parity(),
            same_script(*old(self), *final(self)),
            same_lines(*old(self), *final(self)),
            same_ports(*old(self), *final(self)),
            same_clock(*old(self), *final(self)),
    {
        <SimBoard as crate::board::Board>::spi_tx8(self, bus, data)
    }

    fn spi_rx4(&mut self, bus: SpiBus) -> (data: u8)
        ensures
            data == ack_pattern(
                if old(self).pending_acks().len() > 0 {
                    old(self).pending_acks()[0]
                } else {
                    0b001
                },
            ),
            recorded(*old(self), *final(self), Op::SpiRx4(bus, data)),
            final(self).pending_acks() == (if old(self).pending_acks().len() > 0 {
                old(self).pending_acks().skip(1)
            } else {
                old(self).pending_acks()
            }),
            same_target(*old(self), *final(self)),
            same_lines(*old(self), *final(self)),
            same_ports(*old(self), *final(self)),
            same_clock(*old(self), *final(self)),
    {
        <SimBoard as crate::board::Board>::spi_rx4(self, bus)
    }

    fn spi_rx5(&mut self, bus: SpiBus) -> (data: u8)
        ensures
            data == ack_pattern(
                if old(self).pending_acks().len() > 0 {
                    old(self).pending_acks()[0]
                } else {
                    0b001
                },
            ),
            recorded(*old(self), *final(self), Op::SpiRx5(bus, data)),
            final(self).pending_acks() == (if old(self).pending_acks().len() > 0 {
                old(self).pending_acks().skip(1)
            } else {
                old(self).pending_acks()
            }),
            same_target(*old(self), *final(self)),
            same_lines(*old(self), *final(self)),
            same_ports(*old(self), *final(self)),
            same_clock(*old(self), *final(self)),
    {
        <SimBoard as crate::board::Board>::spi_rx5(self, bus)
    }

    fn spi_drain(&mut self, bus: SpiBus)
        ensures
            only_recorded(*old(self), *final(self), Op::SpiDrain(bus)),
    {
        <SimBoard as crate::board::Board>::spi_drain(self, bus)
    }

    fn spi_wait_busy(&mut self, bus: SpiBus)
        ensures
            only_recorded(*old(self), *final(self), Op::SpiWaitBusy(bus)),
    {
        <SimBoard as crate::board::Board>::spi_wait_busy(self, bus)
    }

    fn swd_rdata_phase(&mut self, bus: SpiBus) -> (r: (u32, u8))
        ensures
            r.0 == target_word(old(self).target()),
            r.1 == (if old(self).spoils_parity() {
                1 - parity_of(r.0)
            } else {
                parity_of(r.0) as int
            }),
            recorded(*old(self), *final(self), Op::SwdReadData(bus, r.0, r.1)),
            final(self).target() == target_step(
                old(self).target(),
                Op::SwdReadData(bus, r.0, r.1),
            ),
            final(self).spoils_parity() == old(self).spoils_parity(),
            same_script(*old(self), *final(self)),
            same_lines(*old(self), *final(self)),
            same_ports(*old(self), *final(self)),
            same_clock(*old(self), *final(self)),
    {
        <SimBoard as crate::board::Board>::swd_rdata_phase(self, bus)
    }

    fn swd_wdata_phase(&mut self, bus: SpiBus, data: u32, parity: u8)
        ensures
            recorded(*old(self), *final(self), Op::SwdWriteData(bus, data, parity)),
            final(self).target() == target_step(
                old(self).target(),
                Op::SwdWriteData(bus, data, parity),
            ),
            final(self).spoils_parity() == old(self).spoils_parity(),
            same_script(*old(self), *final(self)),
            same_lines(*old(self), *final(self)),
            same_ports(*old(self), *final(self)),
            same_clock(*old(self), *final(self)),
    {
        <SimBoard as crate::board::Board>::swd_wdata_phase(self, bus, data, parity)
    }

    fn jtag_exchange(&mut self, bus: SpiBus, tx: &[u8], rx: &mut [u8])
        ensures
            final(rx)@.len() == old(rx)@.len(),
            final(rx)@.skip(tx@.len() as int) == old(rx)@.skip(tx@.len() as int),
            forall|i: int|
                0 <= i < tx@.len() ==> (#[trigger] final(rx)@[i]) == (if old(self).looped() {
                    tx@[i]
                } else {
                    0xFFu8
                }),
            recorded_all(
                *old(self),
                *final(self),
                exchange_ops(bus, tx@, final(rx)@.take(tx@.len() as int)),
            ),
            same_lines(*old(self), *final(self)),
            same_target(*old(self), *final(self)),
            same_script(*old(self), *final(self)),
            same_ports(*old(self), *final(self)),
            same_clock(*old(self), *final(self)),
    {
        <SimBoard as crate::board::Board>::jtag_exchange(self, bus, tx, rx)
    }

    fn now(&self) -> (now: u32)
        ensures
            now == self.counter(),
    {
        <SimBoard as crate::board::Board>::now(self)
    }

    fn delay_ticks(&mut self, ticks: u32)
        ensures
            recorded(*old(self), *final(self), Op::Wait(ticks)),
            final(self).counter() == old(self).counter().wrapping_sub(ticks) & 0xff_ffff,
            same_lines(*old(self), *final(self)),
            same_target(*old(self), *final(self)),
            same_script(*old(self), *final(self)),
            same_ports(*old(self), *final(self)),
    {
        <SimBoard as crate::board::Board>::delay_ticks(self, ticks)
    }

    fn delay_ticks_from_last(&mut self, ticks: u32, last: u32) -> (now: u32)
        ensures
            recorded(*old(self), *final(self), Op::Wait(ticks)),
            now == last.wrapping_sub(ticks) & 0xff_ffff,
            final(self).counter() == now,
            same_lines(*old(self), *final(self)),
            same_target(*old(self), *final(self)),
            same_script(*old(self), *final(self)),
            same_ports(*old(self), *final(self)),
    {
        <SimBoard as crate::board::Board>::delay_ticks_from_last(self, ticks, last)
    }

    fn spin(&mut self, cycles: u32)
        ensures
            only_recorded(*old(self), *final(self), Op::Spin(cycles)),
    {
        <SimBoard as crate::board::Board>::spin(self, cycles)
    }

    fn uart_start(&mut self, port: Port)
        ensures
            recorded(*old(self), *final(self), Op::UartStart(port)),
            final(self).uart_active(port),
            final(self).uart_head(port) == (if port == Port::Swo {
                0
            } else {
                old(self).uart_head(port)
            }),
            final(self).uart_ring(port) == old(self).uart_ring(port),
            final(self).uart_idle(port) == old(self).uart_idle(port),
            port != Port::Swo ==> same_port(*old(self), *final(self), Port::Swo),
            port != Port::Vcp ==> same_port(*old(self), *final(self), Port::Vcp),
            same_lines(*old(self), *final(self)),
            same_target(*old(self), *final(self)),
            same_script(*old(self), *final(self)),
            same_clock(*old(self), *final(self)),
    {
        <SimBoard as crate::board::Board>::uart_start(self, port)
    }

    fn uart_stop(&mut self, port: Port)
        ensures
            recorded(*old(self), *final(self), Op::UartStop(port)),
            !final(self).uart_active(port),
            final(self).uart_head(port) == old(self).uart_head(port),
            final(self).uart_ring(port) == old(self).uart_ring(port),
            final(self).uart_idle(port) == old(self).uart_idle(port),
            port != Port::Swo ==> same_port(*old(self), *final(self), Port::Swo),
            port != Port::Vcp ==> same_port(*old(self), *final(self), Port::Vcp),
            same_lines(*old(self), *final(self)),
            same_target(*old(self), *final(self)),
            same_script(*old(self), *final(self)),
            same_clock(*old(self), *final(self)),
    {
        <SimBoard as crate::board::Board>::uart_stop(self, port)
    }

    fn uart_listen(&mut self, port: Port)
        ensures
            recorded(*old(self), *final(self), Op::UartListen(port)),
            final(self).uart_head(port) == 0,
            final(self).uart_active(port) == old(self).uart_active(port),
            final(self).uart_ring(port) == old(self).uart_ring(port),
            final(self).uart_idle(port) == old(self).uart_idle(port),
            port != Port::Swo ==> same_port(*old(self), *final(self), Port::Swo),
            port != Port::Vcp ==> same_port(*old(self), *final(self), Port::Vcp),
            same_lines(*old(self), *final(self)),
            same_target(*old(self), *final(self)),
            same_script(*old(self), *final(self)),
            same_clock(*old(self), *final(self)),
    {
        <SimBoard as crate::board::Board>::uart_listen(self, port)
    }

    fn uart_set_divider(&mut self, port: Port, brr: u32)
        ensures
            only_recorded(*old(self), *final(self), Op::UartDivider(port, brr)),
    {
        <SimBoard as crate::board::Board>::uart_set_divider(self, port, brr)
    }

    fn uart_set_word_length(&mut self, port: Port, m1: bool, m0: bool)
        ensures
            only_recorded(*old(self), *final(self), Op::UartWordLength(port, m1, m0)),
    {
        <SimBoard as crate::board::Board>::uart_set_word_length(self, port, m1, m0)
    }

    fn uart_set_stop_bits(&mut self, port: Port, field: u8)
        ensures
            only_recorded(*old(self), *final(self), Op::UartStopBits(port, field)),
    {
        <SimBoard as crate::board::Board>::uart_set_stop_bits(self, port, field)
    }

    fn uart_parity_off(&mut self, port: Port)
        ensures
            only_recorded(*old(self), *final(self), Op::UartParityOff(port)),
    {
        <SimBoard as crate::board::Board>::uart_parity_off(self, port)
    }

    fn uart_parity_on(&mut self, port: Port, odd: bool)
        ensures
            only_recorded(*old(self), *final(self), Op::UartParityOn(port, odd)),
    {
        <SimBoard as crate::board::Board>::uart_parity_on(self, port, odd)
    }

    fn uart_is_active(&mut self, port: Port) -> (active: bool)
        ensures
            active == old(self).uart_active(port),
            only_recorded(*old(self), *final(self), Op::UartActive(port, active)),
    {
        <SimBoard as crate::board::Board>::uart_is_active(self, port)
    }

    fn uart_dma_index(&mut self, port: Port) -> (head: usize)
        ensures
            head == old(self).uart_head(port),
            only_recorded(*old(self), *final(self), Op::UartHead(port, head)),
    {
        <SimBoard as crate::board::Board>::uart_dma_index(self, port)
    }

    fn uart_copy(&mut self, port: Port, from: usize, dst: &mut [u8])
        ensures
            final(dst)@.len() == old(dst)@.len(),
            final(dst)@ == old(self).uart_ring(port).subrange(
                from as int,
                from + old(dst)@.len(),
            ),
            recorded_all(*old(self), *final(self), copy_ops(port, from, final(dst)@)),
            same_lines(*old(self), *final(self)),
            same_target(*old(self), *final(self)),
            same_script(*old(self), *final(self)),
            same_ports(*old(self), *final(self)),
            same_clock(*old(self), *final(self)),
    {
        <SimBoard as crate::board::Board>::uart_copy(self, port, from, dst)
    }

    fn uart_send(&mut self, port: Port, data: &[u8])
        ensures
            recorded_all(*old(self), *final(self), send_ops(port, data@)),
            same_lines(*old(self), *final(self)),
            same_target(*old(self), *final(self)),
            same_script(*old(self), *final(self)),
            same_ports(*old(self), *final(self)),
            same_clock(*old(self), *final(self)),
    {
        <SimBoard as crate::board::Board>::uart_send(self, port, data)
    }

    fn uart_tx_idle(&mut self, port: Port) -> (idle: bool)
        ensures
            idle == old(self).uart_idle(port),
            only_recorded(*old(self), *final(self), Op::UartIdle(port, idle)),
    {
        <SimBoard as crate::board::Board>::uart_tx_idle(self, port)
    }
}

} // verus!
