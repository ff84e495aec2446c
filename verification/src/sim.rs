//! A board that exists in memory only: every operation is recorded, the
//! lines keep the levels they were driven to, and a simple target answers
//! on the SWD wire. It is what the engines are run against where there is
//! no hardware.

use vstd::prelude::*;
use crate::bits::{count_ones, parity_of};
use crate::board::{
    copy_ops, exchange_ops, ring_len, send_ops, Board, Line, Op, OutputType, PinMode, Port, Pull,
    Speed,
};
use crate::spi::{SPIPrescaler, SpiBus, SPI};
use crate::swd::{
    access_ops, ack_bits, ack_error, attempt_error, attempt_ops, lemma_acknowledged_at_once,
    performed, read_result, request_base, request_byte, write_result, APnDP, Access, Attempt,
    Error, RnW,
};

verus! {

/// Number of lines of the probe.
pub const LINES: usize = 19;

/// The index of a line among the lines of the probe.
pub open spec fn spec_line_index(line: Line) -> int {
    match line {
        Line::LedRed => 0,
        Line::LedGreen => 1,
        Line::LedBlue => 2,
        Line::T5vEn => 3,
        Line::TvccEn => 4,
        Line::Reset => 5,
        Line::GndDetect => 6,
        Line::Usart1Rx => 7,
        Line::Usart2Rx => 8,
        Line::Usart2Tx => 9,
        Line::Spi1Clk => 10,
        Line::Spi1Miso => 11,
        Line::Spi1Mosi => 12,
        Line::Spi2Clk => 13,
        Line::Spi2Miso => 14,
        Line::Spi2Mosi => 15,
        Line::UsbDm => 16,
        Line::UsbDp => 17,
        Line::UsbSel => 18,
    }
}

/// The index of a line among the lines of the probe.
pub fn line_index(line: Line) -> (i: usize)
    ensures
        i == spec_line_index(line),
        i < LINES,
{
    match line {
        Line::LedRed => 0,
        Line::LedGreen => 1,
        Line::LedBlue => 2,
        Line::T5vEn => 3,
        Line::TvccEn => 4,
        Line::Reset => 5,
        Line::GndDetect => 6,
        Line::Usart1Rx => 7,
        Line::Usart2Rx => 8,
        Line::Usart2Tx => 9,
        Line::Spi1Clk => 10,
        Line::Spi1Miso => 11,
        Line::Spi1Mosi => 12,
        Line::Spi2Clk => 13,
        Line::Spi2Miso => 14,
        Line::Spi2Mosi => 15,
        Line::UsbDm => 16,
        Line::UsbDp => 17,
        Line::UsbSel => 18,
    }
}

/// The acknowledgement bits as they come in for an acknowledgement: after
/// one turnaround bit, which reads as 0.
pub open spec fn ack_pattern(ack: u8) -> u8 {
    (ack & 0b111) << 1u8
}

/// Whether a request byte addresses the access port.
pub open spec fn asks_access_port(request: u8) -> bool {
    (request >> 1u8) & 1 == 1
}

/// The register address in a request byte.
pub open spec fn asked_address(request: u8) -> int {
    ((request >> 3u8) & 0b11) as int
}

/// A target on the SWD wire, reduced to what a test needs: the request it
/// was sent last, and the registers of its debug port and access port. A
/// word written to a register is read back from it. A read of the access
/// port is posted: it brings what the read buffer held, register 3 of the
/// debug port, and leaves the word read in the read buffer.
pub struct Target {
    pub request: u8,
    pub dp: Seq<u32>,
    pub ap: Seq<u32>,
}

/// The target at power-up: all registers zero.
pub open spec fn target_reset() -> Target {
    Target { request: 0, dp: seq![0u32, 0u32, 0u32, 0u32], ap: seq![0u32, 0u32, 0u32, 0u32] }
}

/// The word that the target sends for the request it holds.
pub open spec fn target_word(t: Target) -> u32 {
    if asks_access_port(t.request) {
        t.dp[3]
    } else {
        t.dp[asked_address(t.request)]
    }
}

/// The target after an operation of the board.
pub open spec fn target_step(t: Target, op: Op) -> Target {
    match op {
        Op::SpiTx8(_, request) => Target { request, ..t },
        Op::SwdReadData(_, _, _) => if asks_access_port(t.request) {
            Target { dp: t.dp.update(3, t.ap[asked_address(t.request)]), ..t }
        } else {
            t
        },
        Op::SwdWriteData(_, data, _) => if asks_access_port(t.request) {
            Target { ap: t.ap.update(asked_address(t.request), data), ..t }
        } else {
            Target { dp: t.dp.update(asked_address(t.request), data), ..t }
        },
        _ => t,
    }
}

/// The target after the operations of a trace, from power-up.
pub open spec fn target_after(trace: Seq<Op>) -> Target
    decreases trace.len(),
{
    if trace.len() == 0 {
        target_reset()
    } else {
        target_step(target_after(trace.drop_last()), trace.last())
    }
}

/// Whether what an operation brought is what the target sends when it
/// acknowledges every request: the acknowledgement OK, and for a read the
/// word with its parity.
pub open spec fn answer_ok(t: Target, op: Op) -> bool {
    match op {
        Op::SpiRx4(_, got) => got == ack_pattern(0b001),
        Op::SpiRx5(_, got) => got == ack_pattern(0b001),
        Op::SwdReadData(_, data, parity) => data == target_word(t) && parity == parity_of(data),
        _ => true,
    }
}

/// Whether a trace is one of a board whose target acknowledges every
/// request.
pub open spec fn answers_ok(trace: Seq<Op>) -> bool
    decreases trace.len(),
{
    trace.len() == 0 || (answers_ok(trace.drop_last()) && answer_ok(
        target_after(trace.drop_last()),
        trace.last(),
    ))
}

/// The board in memory.
pub struct SimBoard {
    log: Vec<Op>,
    honest: bool,
    levels: [bool; 19],
    loopback: bool,
    script: Vec<u8>,
    served: usize,
    bad_parity: bool,
    request: u8,
    dp: [u32; 4],
    ap: [u32; 4],
    swo_ring: [u8; 256],
    swo_head: usize,
    swo_active: bool,
    vcp_ring: [u8; 512],
    vcp_head: usize,
    vcp_active: bool,
    vcp_idle: bool,
    clock: u32,
}

proof fn lemma_address(request: u8)
    by (bit_vector)
    ensures
        (request >> 3u8) & 0b11 < 4,
{
}

/// Whether an operation neither reaches the target nor brings an answer of
/// it.
pub open spec fn passes_target_by(op: Op) -> bool {
    match op {
        Op::SpiTx8(_, _) => false,
        Op::SpiRx4(_, _) => false,
        Op::SpiRx5(_, _) => false,
        Op::SwdReadData(_, _, _) => false,
        Op::SwdWriteData(_, _, _) => false,
        _ => true,
    }
}

impl SimBoard {
    /// While the board is honest, its target acknowledges every request and
    /// is what the operations so far have made of the target at power-up.
    #[verifier::type_invariant]
    pub closed spec fn inv(&self) -> bool {
        self.honest ==> {
            &&& self.script@.len() == 0
            &&& !self.bad_parity
            &&& answers_ok(self.log@)
            &&& self.target() == target_after(self.log@)
        }
    }

    /// Whether nothing but the operations of a board has happened to this
    /// board since it was made: no register was set by hand, no
    /// acknowledgement scripted, no parity spoiled, nothing forgotten.
    pub closed spec fn honest(&self) -> bool {
        self.honest
    }

    /// Whether the board is honest. The trace of an honest board is one of
    /// a target that acknowledges every request.
    pub fn is_honest(&self) -> (honest: bool)
        ensures
            honest == self.honest(),
            honest ==> answers_ok(self.trace()),
    {
        proof {
            use_type_invariant(self);
        }
        self.honest
    }

    /// Records an operation that passes the target by.
    fn record(&mut self, op: Op)
        requires
            passes_target_by(op),
        ensures
            final(self).log@ == old(self).log@.push(op),
            *final(self) == (SimBoard { log: final(self).log, ..*old(self) }),
            final(self).inv(),
    {
        let honest = self.honest;
        proof {
            use_type_invariant(&*self);
            lemma_target_push(self.log@, op);
        }
        self.honest = false;
        self.append(op);
        self.honest = honest;
    }

    /// Appends an operation to the record, while the board is not held to
    /// be honest.
    fn append(&mut self, op: Op)
        requires
            !old(self).honest,
        ensures
            final(self).log@ == old(self).log@.push(op),
            *final(self) == (SimBoard { log: final(self).log, ..*old(self) }),
    {
        let mut log: Vec<Op> = Vec::new();
        core::mem::swap(&mut self.log, &mut log);
        log.push(op);
        core::mem::swap(&mut self.log, &mut log);
    }

    /// The level that a line has.
    pub closed spec fn level(&self, line: Line) -> bool {
        self.levels@[spec_line_index(line)]
    }

    /// Whether TDO follows TDI.
    pub closed spec fn looped(&self) -> bool {
        self.loopback
    }

    /// The acknowledgements that the target is set to give to the next
    /// requests, in order. After them it acknowledges with OK.
    pub closed spec fn pending_acks(&self) -> Seq<u8> {
        if self.served <= self.script@.len() {
            self.script@.skip(self.served as int)
        } else {
            Seq::empty()
        }
    }

    /// Whether the target sends a wrong parity bit with the words it sends.
    pub closed spec fn spoils_parity(&self) -> bool {
        self.bad_parity
    }

    /// The target.
    pub closed spec fn target(&self) -> Target {
        Target { request: self.request, dp: self.dp@, ap: self.ap@ }
    }

    /// Everything done to the board so far, oldest first.
    pub closed spec fn ops_done(&self) -> Seq<Op> {
        self.log@
    }

    /// Whether the receiver of a port is enabled.
    pub closed spec fn uart_active(&self, port: Port) -> bool {
        match port {
            Port::Swo => self.swo_active,
            Port::Vcp => self.vcp_active,
        }
    }

    /// What the ring of a port holds.
    pub closed spec fn uart_ring(&self, port: Port) -> Seq<u8> {
        match port {
            Port::Swo => self.swo_ring@,
            Port::Vcp => self.vcp_ring@,
        }
    }

    /// The index in the ring of a port at which the next byte received
    /// will go.
    pub closed spec fn uart_head(&self, port: Port) -> usize {
        match port {
            Port::Swo => if self.swo_head <= 256 {
                self.swo_head
            } else {
                256
            },
            Port::Vcp => if self.vcp_head <= 512 {
                self.vcp_head
            } else {
                512
            },
        }
    }

    /// Whether a port has sent all it was given.
    pub closed spec fn uart_idle(&self, port: Port) -> bool {
        match port {
            Port::Swo => true,
            Port::Vcp => self.vcp_idle,
        }
    }

    /// The timer's counter.
    pub closed spec fn counter(&self) -> u32 {
        self.clock
    }

    /// A board on which nothing has happened: every line low, every
    /// register of the target zero, the rings empty and the receivers off.
    pub fn new() -> (sim: Self)
        ensures
            sim.trace() == Seq::<Op>::empty(),
            forall|line: Line| !sim.level(line),
            !sim.looped(),
            sim.pending_acks() == Seq::<u8>::empty(),
            !sim.spoils_parity(),
            sim.target() == target_reset(),
            sim.honest(),
            forall|port: Port| !sim.uart_active(port) && sim.uart_head(port) == 0,
            forall|port: Port| sim.uart_idle(port),
    {
        let mut sim = SimBoard {
            log: Vec::new(),
            honest: false,
            levels: [false;19],
            loopback: false,
            script: Vec::new(),
            served: 0,
            bad_parity: false,
            request: 0,
            dp: [0u32;4],
            ap: [0u32;4],
            swo_ring: [0u8;256],
            swo_head: 0,
            swo_active: false,
            vcp_ring: [0u8;512],
            vcp_head: 0,
            vcp_active: false,
            vcp_idle: true,
            clock: 0,
        };
        assert(sim.dp@ =~= target_reset().dp);
        assert(sim.ap@ =~= target_reset().ap);
        assert(sim.pending_acks() =~= Seq::<u8>::empty());
        sim.honest = true;
        sim
    }

    /// Everything done to the board so far, oldest first.
    pub fn ops(&self) -> (ops: Vec<Op>)
        ensures
            ops@ == self.trace(),
    {
        let mut ops: Vec<Op> = Vec::new();
        let mut i: usize = 0;
        while i < self.log.len()
            invariant
                i <= self.log@.len(),
                ops@ == self.log@.take(i as int),
            decreases self.log@.len() - i,
        {
            ops.push(self.log[i]);
            assert(ops@ =~= self.log@.take(i + 1));
            i += 1;
        }
        assert(ops@ =~= self.log@);
        ops
    }

    /// Forgets what was done to the board so far.
    pub fn forget(&mut self)
        ensures
            final(self).trace() == Seq::<Op>::empty(),
            final(self).target() == old(self).target(),
            final(self).pending_acks() == old(self).pending_acks(),
            forall|line: Line| final(self).level(line) == old(self).level(line),
    {
        proof {
            use_type_invariant(&*self);
        }
        self.honest = false;
        self.log = Vec::new();
    }

    /// Puts a level on a line, as something outside the probe would.
    pub fn set_level(&mut self, line: Line, high: bool)
        ensures
            final(self).level(line) == high,
            forall|other: Line| other != line ==> final(self).level(other) == old(self).level(other),
            final(self).trace() == old(self).trace(),
    {
        proof {
            use_type_invariant(&*self);
        }
        self.levels[line_index(line)] = high;
    }

    /// The level of a line.
    pub fn level_of(&self, line: Line) -> (high: bool)
        ensures
            high == self.level(line),
    {
        self.levels[line_index(line)]
    }

    /// Wires TDO to TDI, or takes the wire away.
    pub fn set_loopback(&mut self, on: bool)
        ensures
            final(self).looped() == on,
            final(self).trace() == old(self).trace(),
    {
        proof {
            use_type_invariant(&*self);
        }
        self.loopback = on;
    }

    /// Sets the acknowledgements that the target gives to the next
    /// requests, in order: the low three bits of each.
    pub fn script_acks(&mut self, acks: Vec<u8>)
        ensures
            final(self).pending_acks() == acks@,
            final(self).trace() == old(self).trace(),
            final(self).target() == old(self).target(),
    {
        proof {
            use_type_invariant(&*self);
        }
        self.honest = false;
        self.script = acks;
        self.served = 0;
        assert(self.pending_acks() =~= acks@);
    }

    /// Makes the target send a wrong parity bit from now on, or a right one
    /// again.
    pub fn spoil_parity(&mut self, on: bool)
        ensures
            final(self).spoils_parity() == on,
            final(self).trace() == old(self).trace(),
            final(self).target() == old(self).target(),
    {
        proof {
            use_type_invariant(&*self);
        }
        self.honest = false;
        self.bad_parity = on;
    }

    /// Sets a register of the target's debug port.
    pub fn set_dp(&mut self, a: u8, word: u32)
        requires
            a < 4,
        ensures
            final(self).target() == (Target {
                dp: old(self).target().dp.update(a as int, word),
                ..old(self).target()
            }),
            final(self).trace() == old(self).trace(),
    {
        proof {
            use_type_invariant(&*self);
        }
        self.honest = false;
        self.dp[a as usize] = word;
    }

    /// Sets a register of the target's access port.
    pub fn set_ap(&mut self, a: u8, word: u32)
        requires
            a < 4,
        ensures
            final(self).target() == (Target {
                ap: old(self).target().ap.update(a as int, word),
                ..old(self).target()
            }),
            final(self).trace() == old(self).trace(),
    {
        proof {
            use_type_invariant(&*self);
        }
        self.honest = false;
        self.ap[a as usize] = word;
    }

    /// A register of the target's debug port.
    pub fn dp(&self, a: u8) -> (word: u32)
        requires
            a < 4,
        ensures
            word == self.target().dp[a as int],
    {
        self.dp[a as usize]
    }

    /// A register of the target's access port.
    pub fn ap(&self, a: u8) -> (word: u32)
        requires
            a < 4,
        ensures
            word == self.target().ap[a as int],
    {
        self.ap[a as usize]
    }

    /// Lets bytes come in on a port: each goes into the ring where the
    /// receiver stands, which then moves on and starts over at the end of
    /// the ring.
    pub fn receive(&mut self, port: Port, bytes: &[u8])
        ensures
            final(self).trace() == old(self).trace(),
            final(self).uart_ring(port).len() == ring_len(port),
            final(self).uart_active(port) == old(self).uart_active(port),
            bytes@.len() == 0 ==> final(self).uart_ring(port) == old(self).uart_ring(port)
                && final(self).uart_head(port) == old(self).uart_head(port),
            bytes@.len() > 0 && old(self).uart_head(port) + bytes@.len() < ring_len(port) ==> {
                &&& final(self).uart_head(port) == old(self).uart_head(port) + bytes@.len()
                &&& forall|i: int|
                    0 <= i < bytes@.len() ==> final(self).uart_ring(port)[old(self).uart_head(port)
                        + i] == bytes@[i]
            },
    {
        proof {
            use_type_invariant(&*self);
        }
        let ghost head0 = self.uart_head(port);
        let mut i: usize = 0;
        while i < bytes.len()
            invariant
                i <= bytes@.len(),
                self.log@ == old(self).log@,
                self.uart_ring(port).len() == ring_len(port),
                self.uart_active(port) == old(self).uart_active(port),
                i == 0 ==> self.uart_ring(port) == old(self).uart_ring(port) && self.uart_head(port)
                    == head0,
                head0 == old(self).uart_head(port),
                head0 + bytes@.len() < ring_len(port) ==> {
                    &&& self.uart_head(port) == head0 + i
                    &&& forall|k: int|
                        0 <= k < i ==> self.uart_ring(port)[head0 + k] == bytes@[k]
                },
            decreases bytes@.len() - i,
        {
            proof {
                use_type_invariant(&*self);
            }
            match port {
                Port::Swo => {
                    let at = if self.swo_head < 256 {
                        self.swo_head
                    } else {
                        0
                    };
                    self.swo_ring[at] = bytes[i];
                    self.swo_head = at + 1;
                },
                Port::Vcp => {
                    let at = if self.vcp_head < 512 {
                        self.vcp_head
                    } else {
                        0
                    };
                    self.vcp_ring[at] = bytes[i];
                    self.vcp_head = at + 1;
                },
            }
            i += 1;
        }
    }

    /// Says whether the virtual serial port has sent all it was given.
    pub fn set_tx_idle(&mut self, idle: bool)
        ensures
            final(self).uart_idle(Port::Vcp) == idle,
            final(self).trace() == old(self).trace(),
    {
        proof {
            use_type_invariant(&*self);
        }
        self.vcp_idle = idle;
    }
}

/// The lines of two boards are at the same levels and wired alike.
pub open spec fn same_lines(a: SimBoard, b: SimBoard) -> bool {
    &&& a.looped() == b.looped()
    &&& forall|line: Line| (#[trigger] a.level(line)) == b.level(line)
}

/// The targets of two boards are in the same state and send parity alike.
pub open spec fn same_target(a: SimBoard, b: SimBoard) -> bool {
    &&& a.target() == b.target()
    &&& a.spoils_parity() == b.spoils_parity()
}

/// The targets of two boards are set to give the same acknowledgements.
pub open spec fn same_script(a: SimBoard, b: SimBoard) -> bool {
    a.pending_acks() == b.pending_acks()
}

/// A serial port is in the same state on two boards.
pub open spec fn same_port(a: SimBoard, b: SimBoard, port: Port) -> bool {
    &&& a.uart_active(port) == b.uart_active(port)
    &&& a.uart_ring(port) == b.uart_ring(port)
    &&& a.uart_head(port) == b.uart_head(port)
    &&& a.uart_idle(port) == b.uart_idle(port)
}

/// Both serial ports are in the same state on two boards.
pub open spec fn same_ports(a: SimBoard, b: SimBoard) -> bool {
    same_port(a, b, Port::Swo) && same_port(a, b, Port::Vcp)
}

/// The timers of two boards read the same.
pub open spec fn same_clock(a: SimBoard, b: SimBoard) -> bool {
    a.counter() == b.counter()
}

/// The board recorded one operation, and is as honest as it was.
pub open spec fn recorded(before: SimBoard, after: SimBoard, op: Op) -> bool {
    &&& after.ops_done() == before.ops_done().push(op)
    &&& after.honest() == before.honest()
}

/// The board recorded the given operations, and is as honest as it was.
pub open spec fn recorded_all(before: SimBoard, after: SimBoard, ops: Seq<Op>) -> bool {
    &&& after.ops_done() == before.ops_done() + ops
    &&& after.honest() == before.honest()
}

/// The board recorded one operation, and nothing else about it changed.
pub open spec fn only_recorded(before: SimBoard, after: SimBoard, op: Op) -> bool {
    &&& recorded(before, after, op)
    &&& same_lines(before, after)
    &&& same_target(before, after)
    &&& same_script(before, after)
    &&& same_ports(before, after)
    &&& same_clock(before, after)
}

impl Board for SimBoard {
    open spec fn trace(&self) -> Seq<Op> {
        self.ops_done()
    }

    fn pin_write(&mut self, line: Line, high: bool)
        ensures
            recorded(*old(self), *final(self), Op::PinWrite(line, high)),
            final(self).looped() == old(self).looped(),
            forall|other: Line|
                (#[trigger] final(self).level(other)) == (if other == line || (old(self).looped()
                    && line == Line::Spi2Mosi && other == Line::Spi2Miso) {
                    high
                } else {
                    old(self).level(other)
                }),
            same_target(*old(self), *final(self)),
            same_script(*old(self), *final(self)),
            same_ports(*old(self), *final(self)),
            same_clock(*old(self), *final(self)),
    {
        proof {
            use_type_invariant(&*self);
        }
        self.record(Op::PinWrite(line, high));
        self.levels[line_index(line)] = high;
        if self.loopback {
            match line {
                Line::Spi2Mosi => {
                    self.levels[line_index(Line::Spi2Miso)] = high;
                },
                _ => {},
            }
        }
    }

    fn pin_mode(&mut self, line: Line, mode: PinMode)
        ensures
            only_recorded(*old(self), *final(self), Op::PinMode(line, mode)),
    {
        self.record(Op::PinMode(line, mode));
    }

    fn pin_read(&mut self, line: Line) -> (high: bool)
        ensures
            high == old(self).level(line),
            only_recorded(*old(self), *final(self), Op::PinRead(line, high)),
    {
        proof {
            use_type_invariant(&*self);
        }
        let high = self.levels[line_index(line)];
        self.record(Op::PinRead(line, high));
        high
    }

    fn spi_setup_swd(&mut self, bus: SpiBus)
        ensures
            only_recorded(*old(self), *final(self), Op::SpiSetupSwd(bus)),
    {
        self.record(Op::SpiSetupSwd(bus));
    }

    fn spi_setup_jtag(&mut self, bus: SpiBus)
        ensures
            only_recorded(*old(self), *final(self), Op::SpiSetupJtag(bus)),
    {
        self.record(Op::SpiSetupJtag(bus));
    }

    fn spi_disable(&mut self, bus: SpiBus)
        ensures
            only_recorded(*old(self), *final(self), Op::SpiDisable(bus)),
    {
        self.record(Op::SpiDisable(bus));
    }

    fn spi_set_prescaler(&mut self, bus: SpiBus, prescaler: SPIPrescaler)
        ensures
            only_recorded(*old(self), *final(self), Op::SpiPrescaler(bus, prescaler)),
    {
        self.record(Op::SpiPrescaler(bus, prescaler));
    }

    fn spi_tx4(&mut self, bus: SpiBus, data: u8)
        ensures
            only_recorded(*old(self), *final(self), Op::SpiTx4(bus, data)),
    {
        self.record(Op::SpiTx4(bus, data));
    }

    fn spi_tx8(&mut self, bus: SpiBus, data: u8)
        ensures
            recorded(*old(self), *final(self), Op::SpiTx8(bus, data)),
            final(self).target() == target_step(old(self).target(), Op::SpiTx8(bus, data)),
            final(self).spoils_parity() == old(self).spoils_parity(),
            same_script(*old(self), *final(self)),
            same_lines(*old(self), *final(self)),
            same_ports(*old(self), *final(self)),
            same_clock(*old(self), *final(self)),
    {
        proof {
            use_type_invariant(&*self);
        }
        let honest = self.honest;
        proof {
            use_type_invariant(&*self);
            lemma_target_push(self.log@, Op::SpiTx8(bus, data));
        }
        self.honest = false;
        self.append(Op::SpiTx8(bus, data));
        self.request = data;
        self.honest = honest;
    }

    fn spi_rx4(&mut self, bus: SpiBus) -> (data: u8)
        ensures
            data == ack_pattern(
                if old(self).pending_acks().len() > 0 {
                    old(self).pending_acks()[0]
                } else {
                    0b001
                },
            ),
            recorded(*old(self), *final(self), Op::SpiRx4(bus, data)),
            final(self).pending_acks() == (if old(self).pending_acks().len() > 0 {
                old(self).pending_acks().skip(1)
            } else {
                old(self).pending_acks()
            }),
            same_target(*old(self), *final(self)),
            same_lines(*old(self), *final(self)),
            same_ports(*old(self), *final(self)),
            same_clock(*old(self), *final(self)),
    {
        proof {
            use_type_invariant(&*self);
        }
        let ack = self.next_ack();
        let data = (ack & 0b111) << 1u8;
        let honest = self.honest;
        proof {
            use_type_invariant(&*self);
            lemma_target_push(self.log@, Op::SpiRx4(bus, data));
        }
        self.honest = false;
        self.append(Op::SpiRx4(bus, data));
        self.honest = honest;
        data
    }

    fn spi_rx5(&mut self, bus: SpiBus) -> (data: u8)
        ensures
            data == ack_pattern(
                if old(self).pending_acks().len() > 0 {
                    old(self).pending_acks()[0]
                } else {
                    0b001
                },
            ),
            recorded(*old(self), *final(self), Op::SpiRx5(bus, data)),
            final(self).pending_acks() == (if old(self).pending_acks().len() > 0 {
                old(self).pending_acks().skip(1)
            } else {
                old(self).pending_acks()
            }),
            same_target(*old(self), *final(self)),
            same_lines(*old(self), *final(self)),
            same_ports(*old(self), *final(self)),
            same_clock(*old(self), *final(self)),
    {
        proof {
            use_type_invariant(&*self);
        }
        let ack = self.next_ack();
        let data = (ack & 0b111) << 1u8;
        let honest = self.honest;
        proof {
            use_type_invariant(&*self);
            lemma_target_push(self.log@, Op::SpiRx5(bus, data));
        }
        self.honest = false;
        self.append(Op::SpiRx5(bus, data));
        self.honest = honest;
        data
    }

    fn spi_drain(&mut self, bus: SpiBus)
        ensures
            only_recorded(*old(self), *final(self), Op::SpiDrain(bus)),
    {
        self.record(Op::SpiDrain(bus));
    }

    fn spi_wait_busy(&mut self, bus: SpiBus)
        ensures
            only_recorded(*old(self), *final(self), Op::SpiWaitBusy(bus)),
    {
        self.record(Op::SpiWaitBusy(bus));
    }

    fn swd_rdata_phase(&mut self, bus: SpiBus) -> (r: (u32, u8))
        ensures
            r.0 == target_word(old(self).target()),
            r.1 == (if old(self).spoils_parity() {
                1 - parity_of(r.0)
            } else {
                parity_of(r.0) as int
            }),
            recorded(*old(self), *final(self), Op::SwdReadData(bus, r.0, r.1)),
            final(self).target() == target_step(
                old(self).target(),
                Op::SwdReadData(bus, r.0, r.1),
            ),
            final(self).spoils_parity() == old(self).spoils_parity(),
            same_script(*old(self), *final(self)),
            same_lines(*old(self), *final(self)),
            same_ports(*old(self), *final(self)),
            same_clock(*old(self), *final(self)),
    {
        proof {
            use_type_invariant(&*self);
        }
        let request = self.request;
        proof {
            lemma_address(request);
        }
        let a = ((request >> 3u8) & 0b11) as usize;
        let honest = self.honest;
        proof {
            use_type_invariant(&*self);
        }
        let ghost before = self.target();
        self.honest = false;
        let word = if (request >> 1u8) & 1 == 1 {
            let posted = self.dp[3];
            self.dp[3] = self.ap[a];
            posted
        } else {
            self.dp[a]
        };
        let set = count_ones(word);
        let parity: u8 = if self.bad_parity {
            1 - (set % 2) as u8
        } else {
            (set % 2) as u8
        };
        proof {
            lemma_target_push(self.log@, Op::SwdReadData(bus, word, parity));
            assert(self.target() == target_step(before, Op::SwdReadData(bus, word, parity)));
        }
        self.append(Op::SwdReadData(bus, word, parity));
        self.honest = honest;
        (word, parity)
    }

    fn swd_wdata_phase(&mut self, bus: SpiBus, data: u32, parity: u8)
        ensures
            recorded(*old(self), *final(self), Op::SwdWriteData(bus, data, parity)),
            final(self).target() == target_step(
                old(self).target(),
                Op::SwdWriteData(bus, data, parity),
            ),
            final(self).spoils_parity() == old(self).spoils_parity(),
            same_script(*old(self), *final(self)),
            same_lines(*old(self), *final(self)),
            same_ports(*old(self), *final(self)),
            same_clock(*old(self), *final(self)),
    {
        proof {
            use_type_invariant(&*self);
        }
        let request = self.request;
        proof {
            lemma_address(request);
        }
        let a = ((request >> 3u8) & 0b11) as usize;
        let honest = self.honest;
        proof {
            use_type_invariant(&*self);
        }
        let ghost before = self.target();
        self.honest = false;
        if (request >> 1u8) & 1 == 1 {
            self.ap[a] = data;
        } else {
            self.dp[a] = data;
        }
        proof {
            lemma_target_push(self.log@, Op::SwdWriteData(bus, data, parity));
            assert(self.target() == target_step(before, Op::SwdWriteData(bus, data, parity)));
        }
        self.append(Op::SwdWriteData(bus, data, parity));
        self.honest = honest;
    }

    fn jtag_exchange(&mut self, bus: SpiBus, tx: &[u8], rx: &mut [u8])
        ensures
            final(rx)@.len() == old(rx)@.len(),
            final(rx)@.skip(tx@.len() as int) == old(rx)@.skip(tx@.len() as int),
            forall|i: int|
                0 <= i < tx@.len() ==> (#[trigger] final(rx)@[i]) == (if old(self).looped() {
                    tx@[i]
                } else {
                    0xFFu8
                }),
            recorded_all(
                *old(self),
                *final(self),
                exchange_ops(bus, tx@, final(rx)@.take(tx@.len() as int)),
            ),
            same_lines(*old(self), *final(self)),
            same_target(*old(self), *final(self)),
            same_script(*old(self), *final(self)),
            same_ports(*old(self), *final(self)),
            same_clock(*old(self), *final(self)),
    {
        proof {
            use_type_invariant(&*self);
        }
        let n = tx.len();
        let total = rx.len();
        self.record(Op::Exchange(bus, n));
        let ghost opened = self.log@;
        let mut i: usize = 0;
        while i < n
            invariant
                i <= n == tx@.len() <= rx@.len() == total == old(rx)@.len(),
                rx@.skip(n as int) == old(rx)@.skip(n as int),
                self.loopback == old(self).loopback,
                *self == (SimBoard { log: self.log, ..*old(self) }),
                forall|k: int|
                    0 <= k < i ==> (#[trigger] rx@[k]) == (if self.loopback {
                        tx@[k]
                    } else {
                        0xFFu8
                    }),
                self.log@ == opened + Seq::new(i as nat, |k: int| Op::Shifted(tx@[k], rx@[k])),
            decreases n - i,
        {
            let out = tx[i];
            // What TDI carries comes back on TDO where the two are wired
            // together; else TDO reads high.
            let back = if self.loopback {
                out
            } else {
                0xFF
            };
            let ghost before = rx@;
            rx[i] = back;
            self.record(Op::Shifted(out, back));
            proof {
                assert(rx@.skip(n as int) =~= before.skip(n as int));
                assert(self.log@ =~= opened + Seq::new(
                    (i + 1) as nat,
                    |k: int| Op::Shifted(tx@[k], rx@[k]),
                ));
            }
            i += 1;
        }
        proof {
            let got = rx@.take(n as int);
            assert(Seq::new(n as nat, |k: int| Op::Shifted(tx@[k], rx@[k])) =~= Seq::new(
                tx@.len(),
                |k: int| Op::Shifted(tx@[k], got[k]),
            ));
            assert(opened + Seq::new(tx@.len(), |k: int| Op::Shifted(tx@[k], got[k]))
                =~= old(self).log@ + exchange_ops(bus, tx@, got));
            assert(tx@.take(n as int) =~= tx@);
        }
    }

    fn now(&self) -> (now: u32)
        ensures
            now == self.counter(),
    {
        self.clock
    }

    fn delay_ticks(&mut self, ticks: u32)
        ensures
            recorded(*old(self), *final(self), Op::Wait(ticks)),
            final(self).counter() == old(self).counter().wrapping_sub(ticks) & 0xff_ffff,
            same_lines(*old(self), *final(self)),
            same_target(*old(self), *final(self)),
            same_script(*old(self), *final(self)),
            same_ports(*old(self), *final(self)),
    {
        self.record(Op::Wait(ticks));
        self.clock = self.clock.wrapping_sub(ticks) & 0xff_ffff;
    }

    fn delay_ticks_from_last(&mut self, ticks: u32, last: u32) -> (now: u32)
        ensures
            recorded(*old(self), *final(self), Op::Wait(ticks)),
            now == last.wrapping_sub(ticks) & 0xff_ffff,
            final(self).counter() == now,
            same_lines(*old(self), *final(self)),
            same_target(*old(self), *final(self)),
            same_script(*old(self), *final(self)),
            same_ports(*old(self), *final(self)),
    {
        self.record(Op::Wait(ticks));
        self.clock = last.wrapping_sub(ticks) & 0xff_ffff;
        self.clock
    }

    fn uart_start(&mut self, port: Port)
        ensures
            recorded(*old(self), *final(self), Op::UartStart(port)),
            final(self).uart_active(port),
            final(self).uart_head(port) == (if port == Port::Swo {
                0
            } else {
                old(self).uart_head(port)
            }),
            final(self).uart_ring(port) == old(self).uart_ring(port),
            final(self).uart_idle(port) == old(self).uart_idle(port),
            port != Port::Swo ==> same_port(*old(self), *final(self), Port::Swo),
            port != Port::Vcp ==> same_port(*old(self), *final(self), Port::Vcp),
            same_lines(*old(self), *final(self)),
            same_target(*old(self), *final(self)),
            same_script(*old(self), *final(self)),
            same_clock(*old(self), *final(self)),
    {
        proof {
            use_type_invariant(&*self);
        }
        self.record(Op::UartStart(port));
        match port {
            Port::Swo => {
                self.swo_active = true;
                self.swo_head = 0;
            },
            Port::Vcp => {
                self.vcp_active = true;
            },
        }
    }

    fn uart_stop(&mut self, port: Port)
        ensures
            recorded(*old(self), *final(self), Op::UartStop(port)),
            !final(self).uart_active(port),
            final(self).uart_head(port) == old(self).uart_head(port),
            final(self).uart_ring(port) == old(self).uart_ring(port),
            final(self).uart_idle(port) == old(self).uart_idle(port),
            port != Port::Swo ==> same_port(*old(self), *final(self), Port::Swo),
            port != Port::Vcp ==> same_port(*old(self), *final(self), Port::Vcp),
            same_lines(*old(self), *final(self)),
            same_target(*old(self), *final(self)),
            same_script(*old(self), *final(self)),
            same_clock(*old(self), *final(self)),
    {
        proof {
            use_type_invariant(&*self);
        }
        self.record(Op::UartStop(port));
        match port {
            Port::Swo => {
                self.swo_active = false;
            },
            Port::Vcp => {
                self.vcp_active = false;
            },
        }
    }

    fn uart_set_divider(&mut self, port: Port, brr: u32)
        ensures
            only_recorded(*old(self), *final(self), Op::UartDivider(port, brr)),
    {
        self.record(Op::UartDivider(port, brr));
    }

    fn uart_is_active(&mut self, port: Port) -> (active: bool)
        ensures
            active == old(self).uart_active(port),
            only_recorded(*old(self), *final(self), Op::UartActive(port, active)),
    {
        proof {
            use_type_invariant(&*self);
        }
        let active = match port {
            Port::Swo => self.swo_active,
            Port::Vcp => self.vcp_active,
        };
        self.record(Op::UartActive(port, active));
        active
    }

    fn uart_dma_index(&mut self, port: Port) -> (head: usize)
        ensures
            head == old(self).uart_head(port),
            only_recorded(*old(self), *final(self), Op::UartHead(port, head)),
    {
        proof {
            use_type_invariant(&*self);
        }
        let head = match port {
            Port::Swo => if self.swo_head <= 256 {
                self.swo_head
            } else {
                256
            },
            Port::Vcp => if self.vcp_head <= 512 {
                self.vcp_head
            } else {
                512
            },
        };
        self.record(Op::UartHead(port, head));
        head
    }

    fn uart_copy(&mut self, port: Port, from: usize, dst: &mut [u8])
        ensures
            final(dst)@.len() == old(dst)@.len(),
            final(dst)@ == old(self).uart_ring(port).subrange(
                from as int,
                from + old(dst)@.len(),
            ),
            recorded_all(*old(self), *final(self), copy_ops(port, from, final(dst)@)),
            same_lines(*old(self), *final(self)),
            same_target(*old(self), *final(self)),
            same_script(*old(self), *final(self)),
            same_ports(*old(self), *final(self)),
            same_clock(*old(self), *final(self)),
    {
        proof {
            use_type_invariant(&*self);
        }
        let n = dst.len();
        self.record(Op::RingCopy(port, from, n));
        let ghost opened = self.log@;
        let ghost ring = self.uart_ring(port);
        let mut i: usize = 0;
        while i < n
            invariant
                i <= n == dst@.len(),
                from + n <= ring_len(port),
                ring == self.uart_ring(port),
                ring == old(self).uart_ring(port),
                ring.len() == ring_len(port),
                *self == (SimBoard { log: self.log, ..*old(self) }),
                dst@.take(i as int) == ring.subrange(from as int, from + i),
                self.log@ == opened + Seq::new(i as nat, |k: int| Op::RingByte(dst@[k])),
            decreases n - i,
        {
            let byte = match port {
                Port::Swo => self.swo_ring[from + i],
                Port::Vcp => self.vcp_ring[from + i],
            };
            dst[i] = byte;
            self.record(Op::RingByte(byte));
            proof {
                assert(dst@.take(i + 1) =~= ring.subrange(from as int, from + i + 1));
                assert(self.log@ =~= opened + Seq::new(
                    (i + 1) as nat,
                    |k: int| Op::RingByte(dst@[k]),
                ));
            }
            i += 1;
        }
        proof {
            assert(dst@.take(n as int) =~= dst@);
            assert(self.log@ =~= old(self).log@ + copy_ops(port, from, dst@));
        }
    }

    fn uart_listen(&mut self, port: Port)
        ensures
            recorded(*old(self), *final(self), Op::UartListen(port)),
            final(self).uart_head(port) == 0,
            final(self).uart_active(port) == old(self).uart_active(port),
            final(self).uart_ring(port) == old(self).uart_ring(port),
            final(self).uart_idle(port) == old(self).uart_idle(port),
            port != Port::Swo ==> same_port(*old(self), *final(self), Port::Swo),
            port != Port::Vcp ==> same_port(*old(self), *final(self), Port::Vcp),
            same_lines(*old(self), *final(self)),
            same_target(*old(self), *final(self)),
            same_script(*old(self), *final(self)),
            same_clock(*old(self), *final(self)),
    {
        proof {
            use_type_invariant(&*self);
        }
        self.record(Op::UartListen(port));
        match port {
            Port::Swo => {
                self.swo_head = 0;
            },
            Port::Vcp => {
                self.vcp_head = 0;
            },
        }
    }

    fn uart_set_word_length(&mut self, port: Port, m1: bool, m0: bool)
        ensures
            only_recorded(*old(self), *final(self), Op::UartWordLength(port, m1, m0)),
    {
        self.record(Op::UartWordLength(port, m1, m0));
    }

    fn uart_set_stop_bits(&mut self, port: Port, field: u8)
        ensures
            only_recorded(*old(self), *final(self), Op::UartStopBits(port, field)),
    {
        self.record(Op::UartStopBits(port, field));
    }

    fn uart_parity_off(&mut self, port: Port)
        ensures
            only_recorded(*old(self), *final(self), Op::UartParityOff(port)),
    {
        self.record(Op::UartParityOff(port));
    }

    fn uart_parity_on(&mut self, port: Port, odd: bool)
        ensures
            only_recorded(*old(self), *final(self), Op::UartParityOn(port, odd)),
    {
        self.record(Op::UartParityOn(port, odd));
    }

    fn uart_send(&mut self, port: Port, data: &[u8])
        ensures
            recorded_all(*old(self), *final(self), send_ops(port, data@)),
            same_lines(*old(self), *final(self)),
            same_target(*old(self), *final(self)),
            same_script(*old(self), *final(self)),
            same_ports(*old(self), *final(self)),
            same_clock(*old(self), *final(self)),
    {
        let n = data.len();
        self.record(Op::UartSend(port, n));
        let ghost opened = self.log@;
        let mut i: usize = 0;
        while i < n
            invariant
                i <= n == data@.len(),
                *self == (SimBoard { log: self.log, ..*old(self) }),
                self.log@ == opened + Seq::new(i as nat, |k: int| Op::Sent(data@[k])),
            decreases n - i,
        {
            self.record(Op::Sent(data[i]));
            assert(self.log@ =~= opened + Seq::new((i + 1) as nat, |k: int| Op::Sent(data@[k])));
            i += 1;
        }
        assert(self.log@ =~= old(self).log@ + send_ops(port, data@));
    }

    fn uart_tx_idle(&mut self, port: Port) -> (idle: bool)
        ensures
            idle == old(self).uart_idle(port),
            only_recorded(*old(self), *final(self), Op::UartIdle(port, idle)),
    {
        proof {
            use_type_invariant(&*self);
        }
        let idle = match port {
            Port::Swo => true,
            Port::Vcp => self.vcp_idle,
        };
        self.record(Op::UartIdle(port, idle));
        idle
    }

    fn pin_output_type(&mut self, line: Line, kind: OutputType)
        ensures
            only_recorded(*old(self), *final(self), Op::PinOutputType(line, kind)),
    {
        self.record(Op::PinOutputType(line, kind));
    }

    fn pin_speed(&mut self, line: Line, speed: Speed)
        ensures
            only_recorded(*old(self), *final(self), Op::PinSpeed(line, speed)),
    {
        self.record(Op::PinSpeed(line, speed));
    }

    fn pin_pull(&mut self, line: Line, pull: Pull)
        ensures
            only_recorded(*old(self), *final(self), Op::PinPull(line, pull)),
    {
        self.record(Op::PinPull(line, pull));
    }

    fn pin_function(&mut self, line: Line, function: u8)
        ensures
            only_recorded(*old(self), *final(self), Op::PinFunction(line, function)),
    {
        self.record(Op::PinFunction(line, function));
    }

    fn spin(&mut self, cycles: u32)
        ensures
            only_recorded(*old(self), *final(self), Op::Spin(cycles)),
    {
        self.record(Op::Spin(cycles));
    }
}

impl SimBoard {
    /// Takes the acknowledgement for the next request from the script, or
    /// OK where the script has run out.
    fn next_ack(&mut self) -> (ack: u8)
        ensures
            ack == (if old(self).pending_acks().len() > 0 {
                old(self).pending_acks()[0]
            } else {
                0b001u8
            }),
            final(self).pending_acks() == (if old(self).pending_acks().len() > 0 {
                old(self).pending_acks().skip(1)
            } else {
                old(self).pending_acks()
            }),
            final(self).log == old(self).log,
            final(self).target() == old(self).target(),
            *final(self) == (SimBoard { served: final(self).served, ..*old(self) }),
    {
        proof {
            use_type_invariant(&*self);
        }
        if self.served < self.script.len() {
            let ack = self.script[self.served];
            self.served += 1;
            assert(self.pending_acks() =~= old(self).pending_acks().skip(1));
            ack
        } else {
            assert(self.pending_acks() =~= old(self).pending_acks());
            0b001
        }
    }
}

/// The target after one more operation.
proof fn lemma_target_push(trace: Seq<Op>, op: Op)
    ensures
        target_after(trace.push(op)) == target_step(target_after(trace), op),
        answers_ok(trace.push(op)) == (answers_ok(trace) && answer_ok(target_after(trace), op)),
{
    assert(trace.push(op).drop_last() =~= trace);
}

/// A trace whose answers are those of the target begins with one.
proof fn lemma_answers_prefix(trace: Seq<Op>, more: Seq<Op>)
    requires
        answers_ok(trace + more),
    ensures
        answers_ok(trace),
    decreases more.len(),
{
    if more.len() == 0 {
        assert(trace + more =~= trace);
    } else {
        assert((trace + more).drop_last() =~= trace + more.drop_last());
        lemma_answers_prefix(trace, more.drop_last());
    }
}

proof fn lemma_request_fields(base: u8, a: u8, port: u8, direction: u8, parity: u8)
    by (bit_vector)
    requires
        a < 4,
        port <= 1,
        direction <= 1,
        parity <= 1,
        base == 1u8 | (port << 1u8) | (direction << 2u8) | (a << 3u8) | (1u8 << 7u8),
    ensures
        ((base | (parity << 5u8)) >> 3u8) & 0b11 == a,
        (((base | (parity << 5u8)) >> 1u8) & 1 == 1) == (port == 1),
{
}

proof fn lemma_ok_pattern()
    by (bit_vector)
    ensures
        (0b001u8 & 0b111) << 1u8 == 2,
        2u8 >> 1u8 == 1,
        (2u8 >> 1u8) & 0b111 == 1,
{
}

proof fn lemma_parity_bit(parity: u8)
    by (bit_vector)
    requires
        parity <= 1,
    ensures
        parity & 1 == parity,
{
}

/// The request byte of a transfer addresses the port and the register of
/// the transfer.
proof fn lemma_request_addresses(x: Access)
    requires
        x.a < 4,
    ensures
        asked_address(request_byte(x.apndp, x.rnw, x.a)) == x.a,
        asks_access_port(request_byte(x.apndp, x.rnw, x.a)) == (x.apndp == APnDP::AP),
{
    let base = request_base(x.apndp, x.rnw, x.a);
    let parity = (crate::bits::ones(base as u32, 32) % 2) as u8;
    lemma_request_fields(base, x.a, x.apndp.bit(), x.rnw.bit(), parity);
}

/// The target has four registers in each port, whatever happens.
proof fn lemma_target_shape(trace: Seq<Op>)
    ensures
        target_after(trace).dp.len() == 4,
        target_after(trace).ap.len() == 4,
    decreases trace.len(),
{
    if trace.len() > 0 {
        lemma_target_shape(trace.drop_last());
        lemma_address(target_after(trace.drop_last()).request);
    } else {
        assert(target_reset().dp.len() == 4);
        assert(target_reset().ap.len() == 4);
    }
}

/// The first operations of a try, up to the acknowledgement: the target
/// takes the request in, and where it answers as it should, it
/// acknowledges.
proof fn lemma_try_opens(trace: Seq<Op>, spi: SPI, x: Access, at: Attempt)
    requires
        answers_ok(trace + attempt_ops(spi, x, at)),
    ensures
        ack_error(ack_bits(x.rnw, at.got)) is None,
        answers_ok(trace),
{
    let bus = spi.bus();
    let ops = attempt_ops(spi, x, at);
    let t1 = trace.push(Op::SpiTx8(bus, request_byte(x.apndp, x.rnw, x.a)));
    let t2 = t1.push(Op::SpiWaitBusy(bus));
    let t3 = t2.push(Op::SpiDrain(bus));
    let t4 = t3.push(Op::PinMode(Line::Spi1Mosi, PinMode::Input));
    let rx = match x.rnw {
        RnW::R => Op::SpiRx4(bus, at.got),
        RnW::W => Op::SpiRx5(bus, at.got),
    };
    let t5 = t4.push(rx);
    let rest = ops.skip(5);
    assert(trace + ops =~= t5 + rest);
    lemma_answers_prefix(t5, rest);
    lemma_target_push(t4, rx);
    lemma_answers_prefix(trace, ops);
    lemma_ok_pattern();
}

/// What a try that the target acknowledges does to the target, and what it
/// brings: a write leaves the word in the register, and a read brings the
/// word that the register holds, with its parity.
proof fn lemma_try_acknowledged(trace: Seq<Op>, spi: SPI, x: Access, at: Attempt)
    requires
        answers_ok(trace + attempt_ops(spi, x, at)),
        x.apndp == APnDP::DP,
        x.a < 4,
    ensures
        attempt_error(x, at) is None,
        x.rnw == RnW::W ==> target_after(trace + attempt_ops(spi, x, at)).dp == target_after(
            trace,
        ).dp.update(x.a as int, x.data),
        x.rnw == RnW::R ==> at.data == target_after(trace).dp[x.a as int] && target_after(
            trace + attempt_ops(spi, x, at),
        ).dp == target_after(trace).dp,
{
    lemma_try_opens(trace, spi, x, at);
    lemma_request_addresses(x);
    let bus = spi.bus();
    let ops = attempt_ops(spi, x, at);
    let request = request_byte(x.apndp, x.rnw, x.a);
    let t1 = trace.push(Op::SpiTx8(bus, request));
    let t2 = t1.push(Op::SpiWaitBusy(bus));
    let t3 = t2.push(Op::SpiDrain(bus));
    let t4 = t3.push(Op::PinMode(Line::Spi1Mosi, PinMode::Input));
    lemma_target_push(trace, Op::SpiTx8(bus, request));
    lemma_target_push(t1, Op::SpiWaitBusy(bus));
    lemma_target_push(t2, Op::SpiDrain(bus));
    lemma_target_push(t3, Op::PinMode(Line::Spi1Mosi, PinMode::Input));
    match x.rnw {
        RnW::R => {
            let t5 = t4.push(Op::SpiRx4(bus, at.got));
            let t6 = t5.push(Op::SwdReadData(bus, at.data, at.parity));
            let t7 = t6.push(Op::PinMode(Line::Spi1Mosi, PinMode::Alternate));
            assert(trace + ops =~= t7);
            lemma_target_push(t4, Op::SpiRx4(bus, at.got));
            lemma_target_push(t5, Op::SwdReadData(bus, at.data, at.parity));
            lemma_target_push(t6, Op::PinMode(Line::Spi1Mosi, PinMode::Alternate));
            lemma_parity_bit(at.parity);
        },
        RnW::W => {
            let t5 = t4.push(Op::SpiRx5(bus, at.got));
            let t6 = t5.push(Op::PinMode(Line::Spi1Mosi, PinMode::Alternate));
            let t7 = t6.push(Op::SwdWriteData(bus, x.data, parity_of(x.data) as u8));
            let t8 = t7.push(Op::SpiWaitBusy(bus));
            assert(trace + ops =~= t8);
            lemma_target_push(t4, Op::SpiRx5(bus, at.got));
            lemma_target_push(t5, Op::PinMode(Line::Spi1Mosi, PinMode::Alternate));
            lemma_target_push(t6, Op::SwdWriteData(bus, x.data, parity_of(x.data) as u8));
            lemma_target_push(t7, Op::SpiWaitBusy(bus));
        },
    }
}

/// A transfer with a target that acknowledges every request is tried once.
proof fn lemma_tried_once(
    trace: Seq<Op>,
    spi: SPI,
    x: Access,
    retries: usize,
    after: Seq<Op>,
    tries: Seq<Attempt>,
)
    requires
        performed(spi, x, retries, trace, after, tries),
        answers_ok(after),
        retries > 0,
    ensures
        tries.len() == 1,
        after == trace + attempt_ops(spi, x, tries[0]),
{
    lemma_all_acknowledged(trace, spi, x, tries);
    lemma_acknowledged_at_once(x, tries, retries);
    assert(tries.drop_last() =~= Seq::<Attempt>::empty());
    assert(access_ops(spi, x, tries.drop_last()) =~= Seq::<Op>::empty());
    assert(access_ops(spi, x, tries) =~= attempt_ops(spi, x, tries[0]));
}

/// Where the answers are those of the target that acknowledges every
/// request, no try asked to wait.
proof fn lemma_all_acknowledged(trace: Seq<Op>, spi: SPI, x: Access, tries: Seq<Attempt>)
    requires
        answers_ok(trace + access_ops(spi, x, tries)),
    ensures
        forall|i: int| 0 <= i < tries.len() ==> attempt_error(x, tries[i]) != Some(Error::AckWait),
    decreases tries.len(),
{
    if tries.len() > 0 {
        let before = access_ops(spi, x, tries.drop_last());
        let last = attempt_ops(spi, x, tries.last());
        assert(trace + access_ops(spi, x, tries) =~= (trace + before) + last);
        lemma_try_opens(trace + before, spi, x, tries.last());
        lemma_all_acknowledged(trace, spi, x, tries.drop_last());
        assert forall|i: int| 0 <= i < tries.len() implies attempt_error(x, tries[i]) != Some(
            Error::AckWait,
        ) by {
            if i < tries.len() - 1 {
                assert(tries[i] == tries.drop_last()[i]);
            }
        }
    }
}

/// Against a target that acknowledges every request, a word written to a
/// register of the debug port is the word that a read of that register
/// brings next: both go through, at the first try.
///
/// `t0`, `t1` and `t2` are the board's trace before the write, between the
/// write and the read, and after the read; `written` and `read` are what
/// the wire carried back.
pub proof fn lemma_write_then_read_round_trips(
    spi: SPI,
    a: u8,
    word: u32,
    retries: usize,
    t0: Seq<Op>,
    t1: Seq<Op>,
    t2: Seq<Op>,
    written: Seq<Attempt>,
    read: Seq<Attempt>,
)
    requires
        a < 4,
        retries > 0,
        performed(spi, Access { apndp: APnDP::DP, rnw: RnW::W, a, data: word }, retries, t0, t1, written),
        performed(spi, Access { apndp: APnDP::DP, rnw: RnW::R, a, data: 0 }, retries, t1, t2, read),
        answers_ok(t2),
    ensures
        write_result(Access { apndp: APnDP::DP, rnw: RnW::W, a, data: word }, written) == Ok::<
            (),
            Error,
        >(()),
        read_result(Access { apndp: APnDP::DP, rnw: RnW::R, a, data: 0 }, read) == Ok::<u32, Error>(
            word,
        ),
{
    let w = Access { apndp: APnDP::DP, rnw: RnW::W, a, data: word };
    let r = Access { apndp: APnDP::DP, rnw: RnW::R, a, data: 0 };
    lemma_answers_prefix(t1, access_ops(spi, r, read));
    lemma_tried_once(t0, spi, w, retries, t1, written);
    lemma_tried_once(t1, spi, r, retries, t2, read);
    lemma_try_acknowledged(t0, spi, w, written[0]);
    lemma_try_acknowledged(t1, spi, r, read[0]);
    lemma_target_shape(t0);
    assert(read.last() == read[0]);
    assert(written.last() == written[0]);
}

} // verus!
