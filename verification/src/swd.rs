//! The SWD engine: register reads and writes over the single data wire, with
//! acknowledgement, parity and retries.

use vstd::prelude::*;
use crate::bits::{count_ones, ones, parity_of, test_bit};
use crate::board::{Board, Line, Op, PinMode};
use crate::delay::{half_period_for, Delay};
use crate::gpio::Pins;
use crate::jtag::bit_at;
use crate::spi::{prescaler_for, SPI};

verus! {

/// Why an SWD transfer failed.
#[derive(Clone, Copy, PartialEq, Eq, Structural, Debug)]
pub enum Error {
    /// The parity bit of the data read does not fit the data.
    BadParity,
    /// The target asked to wait, on every try.
    AckWait,
    /// The target answered FAULT.
    AckFault,
    /// The target left the line high: no target, or it lost track.
    AckProtocol,
    /// The target answered with the acknowledgement bits held here, which
    /// mean nothing.
    AckUnknown(u8),
}

/// Registers of the debug port.
#[derive(Clone, Copy, PartialEq, Eq, Structural, Debug)]
pub enum DPRegister {
    DPIDR,
    CTRLSTAT,
    SELECT,
    RDBUFF,
}

impl DPRegister {
    /// The register's address, as transfers give it.
    pub open spec fn spec_address(self) -> u8 {
        match self {
            DPRegister::DPIDR => 0,
            DPRegister::CTRLSTAT => 1,
            DPRegister::SELECT => 2,
            DPRegister::RDBUFF => 3,
        }
    }

    /// The register's address, as transfers give it.
    pub fn address(self) -> (a: u8)
        ensures
            a == self.spec_address(),
    {
        match self {
            DPRegister::DPIDR => 0,
            DPRegister::CTRLSTAT => 1,
            DPRegister::SELECT => 2,
            DPRegister::RDBUFF => 3,
        }
    }
}

/// Which port a transfer addresses.
#[derive(Clone, Copy, PartialEq, Eq, Structural, Debug)]
pub enum APnDP {
    /// The debug port.
    DP,
    /// The access port selected in the debug port.
    AP,
}

impl APnDP {
    /// The port that the bit of a transfer request selects.
    pub open spec fn of(bit: bool) -> APnDP {
        if bit {
            APnDP::AP
        } else {
            APnDP::DP
        }
    }

    /// The port's bit in a request.
    pub open spec fn bit(self) -> u8 {
        match self {
            APnDP::DP => 0,
            APnDP::AP => 1,
        }
    }
}

impl From<bool> for APnDP {
    fn from(x: bool) -> (port: APnDP) {
        if x {
            APnDP::AP
        } else {
            APnDP::DP
        }
    }
}

impl vstd::std_specs::convert::FromSpecImpl<bool> for APnDP {
    open spec fn obeys_from_spec() -> bool {
        true
    }

    open spec fn from_spec(x: bool) -> APnDP {
        APnDP::of(x)
    }
}

/// Direction of a transfer.
#[derive(Clone, Copy, PartialEq, Eq, Structural, Debug)]
pub enum RnW {
    W,
    R,
}

impl RnW {
    /// The direction's bit in a request.
    pub open spec fn bit(self) -> u8 {
        match self {
            RnW::W => 0,
            RnW::R => 1,
        }
    }
}

/// The acknowledgements that mean something.
#[derive(Clone, Copy, PartialEq, Eq, Structural, Debug)]
pub enum ACK {
    OK,
    WAIT,
    FAULT,
    PROTOCOL,
}

/// What three acknowledgement bits say: nothing on OK, else the error.
pub open spec fn ack_error(ack: u8) -> Option<Error> {
    if ack == 0b001 {
        None
    } else if ack == 0b010 {
        Some(Error::AckWait)
    } else if ack == 0b100 {
        Some(Error::AckFault)
    } else if ack == 0b111 {
        Some(Error::AckProtocol)
    } else {
        Some(Error::AckUnknown(ack))
    }
}

impl ACK {
    /// The three bits that stand for the acknowledgement on the wire.
    pub open spec fn spec_code(self) -> u8 {
        match self {
            ACK::OK => 0b001,
            ACK::WAIT => 0b010,
            ACK::FAULT => 0b100,
            ACK::PROTOCOL => 0b111,
        }
    }

    /// The three bits that stand for the acknowledgement on the wire.
    pub fn code(self) -> (c: u8)
        ensures
            c == self.spec_code(),
    {
        match self {
            ACK::OK => 0b001,
            ACK::WAIT => 0b010,
            ACK::FAULT => 0b100,
            ACK::PROTOCOL => 0b111,
        }
    }

    /// Reads three acknowledgement bits: `Ok` for OK, else the error they
    /// stand for.
    pub fn try_ok(ack: u8) -> (r: Result<(), Error>)
        ensures
            r == match ack_error(ack) {
                None => Ok::<(), Error>(()),
                Some(e) => Err(e),
            },
            r is Ok <==> ack == ACK::OK.spec_code(),
    {
        if ack == ACK::OK.code() {
            Ok(())
        } else if ack == ACK::WAIT.code() {
            Err(Error::AckWait)
        } else if ack == ACK::FAULT.code() {
            Err(Error::AckFault)
        } else if ack == ACK::PROTOCOL.code() {
            Err(Error::AckProtocol)
        } else {
            Err(Error::AckUnknown(ack))
        }
    }
}

/// One transfer asked of the target: the port, the direction, the register
/// address and, for a write, the word.
pub struct Access {
    pub apndp: APnDP,
    pub rnw: RnW,
    pub a: u8,
    pub data: u32,
}

/// What the wire carried back in one try of a transfer: the bits clocked in
/// during the acknowledgement phase and, where a read got as far, the word
/// and the parity bit.
pub struct Attempt {
    pub got: u8,
    pub data: u32,
    pub parity: u8,
}

/// The request byte without its parity bit: start bit, port, direction, two
/// address bits, and the park bit.
pub open spec fn request_base(apndp: APnDP, rnw: RnW, a: u8) -> u8 {
    1u8 | (apndp.bit() << 1u8) | (rnw.bit() << 2u8) | (a << 3u8) | (1u8 << 7u8)
}

/// The request byte that opens a transfer: `request_base` with bit 5 set so
/// that the number of bits set in the port, direction and address is even
/// with it.
pub open spec fn request_byte(apndp: APnDP, rnw: RnW, a: u8) -> u8 {
    let base = request_base(apndp, rnw, a);
    base | (((ones(base as u32, 32) % 2) as u8) << 5u8)
}

/// The acknowledgement in the bits that came in: after the turnaround bit.
/// A write clocks one bit more, which is not part of it.
pub open spec fn ack_bits(rnw: RnW, got: u8) -> u8 {
    match rnw {
        RnW::R => got >> 1u8,
        RnW::W => (got >> 1u8) & 0b111,
    }
}

/// Why one try failed, if it did.
pub open spec fn attempt_error(x: Access, at: Attempt) -> Option<Error> {
    match ack_error(ack_bits(x.rnw, at.got)) {
        Some(e) => Some(e),
        None => if x.rnw == RnW::R && (at.parity & 1) as nat != parity_of(at.data) {
            Some(Error::BadParity)
        } else {
            None
        },
    }
}

/// Trace of one try of a transfer. The request goes out, the bus is turned
/// round and the acknowledgement comes in. A read that is not acknowledged
/// takes the bus back and idles; one that is clocks the data in and then
/// takes the bus back. A write takes the bus back at once and, where it is
/// acknowledged, clocks the data out.
pub open spec fn attempt_ops(spi: SPI, x: Access, at: Attempt) -> Seq<Op> {
    let bus = spi.bus();
    let opening = seq![
        Op::SpiTx8(bus, request_byte(x.apndp, x.rnw, x.a)),
        Op::SpiWaitBusy(bus),
        Op::SpiDrain(bus),
        Op::PinMode(Line::Spi1Mosi, PinMode::Input),
    ];
    let acked = ack_error(ack_bits(x.rnw, at.got)) is None;
    match x.rnw {
        RnW::R => opening + seq![Op::SpiRx4(bus, at.got)] + (if acked {
            seq![
                Op::SwdReadData(bus, at.data, at.parity),
                Op::PinMode(Line::Spi1Mosi, PinMode::Alternate),
            ]
        } else {
            seq![Op::PinMode(Line::Spi1Mosi, PinMode::Alternate), Op::SpiTx4(bus, 0)]
        }),
        RnW::W => opening + seq![
            Op::SpiRx5(bus, at.got),
            Op::PinMode(Line::Spi1Mosi, PinMode::Alternate),
        ] + (if acked {
            seq![
                Op::SwdWriteData(bus, x.data, parity_of(x.data) as u8),
                Op::SpiWaitBusy(bus),
            ]
        } else {
            Seq::empty()
        }),
    }
}

/// Trace of the tries of one transfer, one after the other.
pub open spec fn access_ops(spi: SPI, x: Access, tries: Seq<Attempt>) -> Seq<Op>
    decreases tries.len(),
{
    if tries.len() == 0 {
        Seq::empty()
    } else {
        access_ops(spi, x, tries.drop_last()) + attempt_ops(spi, x, tries.last())
    }
}

/// The retry policy: a transfer is tried again while the target asks to
/// wait, at most `retries` times in all, and not at all after any other
/// outcome.
pub open spec fn follows_policy(x: Access, tries: Seq<Attempt>, retries: usize) -> bool {
    &&& tries.len() <= retries
    &&& forall|i: int|
        0 <= i < tries.len() - 1 ==> attempt_error(x, #[trigger] tries[i]) == Some(Error::AckWait)
    &&& tries.len() < retries ==> tries.len() > 0 && attempt_error(x, tries.last()) != Some(
        Error::AckWait,
    )
}

/// Why a transfer failed, if it did: as its last try failed, and with
/// `AckWait` where not one try was allowed.
pub open spec fn access_error(x: Access, tries: Seq<Attempt>) -> Option<Error> {
    if tries.len() == 0 {
        Some(Error::AckWait)
    } else {
        attempt_error(x, tries.last())
    }
}

/// What a read returns after the given tries.
pub open spec fn read_result(x: Access, tries: Seq<Attempt>) -> Result<u32, Error> {
    match access_error(x, tries) {
        Some(e) => Err(e),
        None => Ok(tries.last().data),
    }
}

/// What a write returns after the given tries.
pub open spec fn write_result(x: Access, tries: Seq<Attempt>) -> Result<(), Error> {
    match access_error(x, tries) {
        Some(e) => Err(e),
        None => Ok(()),
    }
}

/// Trace of clocking one bit out on SWDIO by hand: the bit is set, SWCLK
/// falls, and half a period later rises.
pub open spec fn tx_bit_ops(half: u32, bit: bool) -> Seq<Op> {
    seq![
        Op::PinWrite(Line::Spi1Mosi, bit),
        Op::PinWrite(Line::Spi1Clk, false),
        Op::Wait(half),
        Op::PinWrite(Line::Spi1Clk, true),
        Op::Wait(half),
    ]
}

/// Trace of clocking the first `n` bits of `data` out on SWDIO by hand.
pub open spec fn tx_ops(half: u32, data: Seq<u8>, n: nat) -> Seq<Op>
    decreases n,
{
    if n == 0 {
        Seq::empty()
    } else {
        tx_ops(half, data, (n - 1) as nat) + tx_bit_ops(half, bit_at(data, n - 1))
    }
}

/// Trace of a sequence clocked out by hand: the pins take SWDIO and SWCLK,
/// and after half a period `bits` bits of `data` are clocked out, or all of
/// `data` if it holds fewer; then the SPI peripheral gets both lines back.
pub open spec fn tx_sequence_ops(half: u32, data: Seq<u8>, bits: nat) -> Seq<Op> {
    seq![
        Op::PinMode(Line::Spi1Mosi, PinMode::Output),
        Op::PinMode(Line::Spi1Clk, PinMode::Output),
        Op::Wait(half),
    ] + tx_ops(
        half,
        data,
        if bits <= 8 * data.len() {
            bits
        } else {
            8 * data.len()
        },
    ) + seq![
        Op::PinMode(Line::Spi1Mosi, PinMode::Alternate),
        Op::PinMode(Line::Spi1Clk, PinMode::Alternate),
    ]
}

/// The SWD engine.
pub struct SWD {
    /// The SPI peripheral that drives the wire.
    pub spi: SPI,
    /// The timer.
    pub delay: Delay,
    /// Half of an SWCLK period when bits are clocked by hand, in timer ticks.
    pub half_period_ticks: u32,
    /// How many times a transfer is tried while the target asks to wait.
    pub wait_retries: usize,
}

impl SWD {
    /// The SPI peripheral that drives the wire.
    pub open spec fn spi(&self) -> SPI {
        self.spi
    }

    /// The timer.
    pub open spec fn delay(&self) -> Delay {
        self.delay
    }

    /// Half of an SWCLK period when bits are clocked by hand, in timer ticks.
    pub open spec fn half_period(&self) -> u32 {
        self.half_period_ticks
    }

    /// How many times a transfer is tried while the target asks to wait.
    pub open spec fn wait_retries(&self) -> usize {
        self.wait_retries
    }

    /// An engine on the given SPI peripheral and timer, with 8 tries for each
    /// transfer and a half period of 10000 ticks.
    pub fn new(spi: SPI, delay: Delay) -> (swd: Self)
        ensures
            swd.spi() == spi,
            swd.delay() == delay,
            swd.half_period() == 10000,
            swd.wait_retries() == 8,
    {
        SWD { spi, delay, half_period_ticks: 10000, wait_retries: 8 }
    }

    /// The engine after its clock was set to at most `max_frequency` Hz: it
    /// has the half period for that frequency. No clock is as slow as 0 Hz,
    /// and the engine is then as it was.
    pub open spec fn with_clock(self, max_frequency: u32) -> SWD {
        if max_frequency == 0 {
            self
        } else {
            SWD {
                half_period_ticks: half_period_for(self.delay.base_clock, max_frequency) as u32,
                ..self
            }
        }
    }

    /// Trace of setting the clock to at most `max_frequency` Hz: the
    /// divider of the SPI clock is set, where there is one for it.
    pub open spec fn clock_ops(self, max_frequency: u32) -> Seq<Op> {
        if max_frequency == 0 {
            Seq::empty()
        } else {
            match prescaler_for(self.spi.base_clock, max_frequency) {
                Some(p) => seq![Op::SpiPrescaler(self.spi.bus, p)],
                None => Seq::empty(),
            }
        }
    }

    /// Sets the SWCLK frequency to at most `max_frequency` Hz: the smallest
    /// divider of the SPI clock that does not exceed it. Returns whether
    /// there is one; where there is none the SPI clock is left as it was.
    /// For 0 Hz there is none, and nothing changes.
    pub fn set_clock<H: Board>(&mut self, hw: &mut H, max_frequency: u32) -> (valid: bool)
        ensures
            *final(self) == old(self).with_clock(max_frequency),
            valid == (max_frequency > 0 && prescaler_for(
                old(self).spi().base_clock(),
                max_frequency,
            ) is Some),
            final(hw).trace() == old(hw).trace() + old(self).clock_ops(max_frequency),
    {
        match self.delay.half_period_ticks(max_frequency) {
            None => {
                assert(hw.trace() =~= old(hw).trace() + old(self).clock_ops(max_frequency));
                return false;
            },
            Some(ticks) => {
                self.half_period_ticks = ticks;
            },
        }
        match self.spi.calculate_prescaler(max_frequency) {
            Some(prescaler) => {
                hw.spi_set_prescaler(self.spi.which(), prescaler);
                assert(hw.trace() =~= old(hw).trace() + old(self).clock_ops(max_frequency));
                true
            },
            None => {
                assert(hw.trace() =~= old(hw).trace() + old(self).clock_ops(max_frequency));
                false
            },
        }
    }

    /// Sets the SPI peripheral up for SWD.
    pub fn spi_enable<H: Board>(&self, hw: &mut H)
        ensures
            final(hw).trace() == old(hw).trace().push(Op::SpiSetupSwd(self.spi().bus())),
    {
        hw.spi_setup_swd(self.spi.which());
    }

    /// Disables the SPI peripheral.
    pub fn spi_disable<H: Board>(&self, hw: &mut H)
        ensures
            final(hw).trace() == old(hw).trace().push(Op::SpiDisable(self.spi().bus())),
    {
        hw.spi_disable(self.spi.which());
    }

    /// Sets how many times a transfer is tried while the target asks to
    /// wait.
    pub fn set_wait_retries(&mut self, wait_retries: usize)
        ensures
            *final(self) == (SWD { wait_retries, ..*old(self) }),
    {
        self.wait_retries = wait_retries;
    }

    /// Clocks four idle bits with SWDIO low.
    pub fn idle_low<H: Board>(&self, hw: &mut H)
        ensures
            final(hw).trace() == old(hw).trace().push(Op::SpiTx4(self.spi().bus(), 0)),
    {
        hw.spi_tx4(self.spi.which(), 0);
    }

    /// The request byte that opens a transfer.
    pub fn make_request(apndp: APnDP, rnw: RnW, a: u8) -> (req: u8)
        ensures
            req == request_byte(apndp, rnw, a),
    {
        let port: u8 = match apndp {
            APnDP::DP => 0,
            APnDP::AP => 1,
        };
        let direction: u8 = match rnw {
            RnW::W => 0,
            RnW::R => 1,
        };
        let req: u8 = 1u8 | (port << 1u8) | (direction << 2u8) | (a << 3u8) | (1u8 << 7u8);
        let n = count_ones(req as u32);
        let parity = (n % 2) as u8;
        req | (parity << 5u8)
    }
}

/// One try of transfer `x` happened between the two traces, and the wire
/// carried `at` back.
pub open spec fn tried(spi: SPI, x: Access, before: Seq<Op>, after: Seq<Op>, at: Attempt) -> bool {
    after == before + attempt_ops(spi, x, at)
}

/// Transfer `x` happened between the two traces under the retry policy, and
/// the wire carried `tries` back.
pub open spec fn performed(
    spi: SPI,
    x: Access,
    retries: usize,
    before: Seq<Op>,
    after: Seq<Op>,
    tries: Seq<Attempt>,
) -> bool {
    &&& follows_policy(x, tries, retries)
    &&& after == before + access_ops(spi, x, tries)
}

/// A target that asks to wait on every try is tried exactly as often as the
/// engine is set to retry, and the transfer then fails with `AckWait`.
pub proof fn lemma_waiting_target_exhausts_retries(x: Access, tries: Seq<Attempt>, retries: usize)
    requires
        follows_policy(x, tries, retries),
        forall|i: int| 0 <= i < tries.len() ==> attempt_error(x, tries[i]) == Some(Error::AckWait),
    ensures
        tries.len() == retries,
        access_error(x, tries) == Some(Error::AckWait),
{
    if tries.len() > 0 {
        assert(attempt_error(x, tries[tries.len() - 1]) == Some(Error::AckWait));
    }
}

/// A transfer that the target acknowledges at once is tried once.
pub proof fn lemma_acknowledged_at_once(x: Access, tries: Seq<Attempt>, retries: usize)
    requires
        follows_policy(x, tries, retries),
        retries > 0,
        forall|i: int| 0 <= i < tries.len() ==> attempt_error(x, tries[i]) != Some(Error::AckWait),
    ensures
        tries.len() == 1,
{
    if tries.len() > 1 {
        assert(attempt_error(x, tries[0]) == Some(Error::AckWait));
    }
}

proof fn lemma_low_bit(n: u32)
    by (bit_vector)
    ensures
        n & 1 == n % 2,
{
}

impl SWD {
    /// Clocks `bits` bits of `data` out on SWDIO by hand, the least
    /// significant bit of each byte first, or all of `data` if it holds
    /// fewer bits. The pins drive both lines meanwhile, and the SPI
    /// peripheral gets them back at the end.
    pub fn tx_sequence<H: Board>(&self, hw: &mut H, data: &[u8], bits: usize)
        ensures
            final(hw).trace() == old(hw).trace() + tx_sequence_ops(
                self.half_period(),
                data@,
                bits as nat,
            ),
    {
        Pins::swd_tx_direct(hw);
        Pins::swd_clk_direct(hw);
        let half = self.half_period_ticks;
        let mut last = hw.now();
        last = hw.delay_ticks_from_last(half, last);
        let ghost base = hw.trace();
        assert(base =~= old(hw).trace() + seq![
            Op::PinMode(Line::Spi1Mosi, PinMode::Output),
            Op::PinMode(Line::Spi1Clk, PinMode::Output),
            Op::Wait(half),
        ]);
        let mut bits = bits;
        let ghost bits0 = bits;
        let ghost mut clocked: nat = 0;
        let mut j: usize = 0;
        assert(base =~= base + tx_ops(half, data@, 0));
        while j < data.len()
            invariant
                j <= data@.len(),
                half == self.half_period(),
                clocked == (if bits0 <= 8 * j {
                    bits0 as nat
                } else {
                    (8 * j) as nat
                }),
                bits == bits0 - clocked,
                hw.trace() == base + tx_ops(half, data@, clocked),
            decreases data@.len() - j,
        {
            let byte = data[j];
            let frame_bits: u8 = if bits < 8 {
                bits as u8
            } else {
                8
            };
            let mut k: u8 = 0;
            while k < frame_bits
                invariant
                    k <= frame_bits <= 8,
                    j < data@.len(),
                    byte == data@[j as int],
                    frame_bits > 0 ==> clocked == 8 * j,
                    hw.trace() == base + tx_ops(half, data@, clocked + k as nat),
                decreases frame_bits - k,
            {
                let bit = test_bit(byte, k);
                let ghost before = hw.trace();
                hw.pin_write(Line::Spi1Mosi, bit);
                hw.pin_write(Line::Spi1Clk, false);
                last = hw.delay_ticks_from_last(half, last);
                hw.pin_write(Line::Spi1Clk, true);
                last = hw.delay_ticks_from_last(half, last);
                proof {
                    let n = clocked + k as nat;
                    assert(bit == bit_at(data@, n as int));
                    assert(hw.trace() =~= before + tx_bit_ops(half, bit));
                    assert(hw.trace() =~= base + tx_ops(half, data@, n + 1));
                }
                k += 1;
            }
            proof {
                clocked = clocked + frame_bits as nat;
            }
            bits -= frame_bits as usize;
            j += 1;
        }
        Pins::swd_tx(hw);
        Pins::swd_clk_spi(hw);
        assert(hw.trace() =~= base + tx_ops(half, data@, clocked) + seq![
            Op::PinMode(Line::Spi1Mosi, PinMode::Alternate),
            Op::PinMode(Line::Spi1Clk, PinMode::Alternate),
        ]);
    }

    /// Tries a read once.
    pub fn read_inner<H: Board>(&self, hw: &mut H, apndp: APnDP, a: u8) -> (r: Result<u32, Error>)
        ensures
            exists|at: Attempt| #[trigger]
                tried(
                    self.spi(),
                    Access { apndp, rnw: RnW::R, a, data: 0 },
                    old(hw).trace(),
                    final(hw).trace(),
                    at,
                ) && r == read_result(Access { apndp, rnw: RnW::R, a, data: 0 }, seq![at]),
    {
        let ghost x = Access { apndp, rnw: RnW::R, a, data: 0 };
        let bus = self.spi.which();
        let req = Self::make_request(apndp, RnW::R, a);

        hw.spi_tx8(bus, req);
        hw.spi_wait_busy(bus);
        hw.spi_drain(bus);
        Pins::swd_rx(hw);

        // One clock for the turnaround and three for the acknowledgement.
        let got = hw.spi_rx4(bus);
        let ack = got >> 1u8;
        match ACK::try_ok(ack) {
            Ok(_) => (),
            Err(e) => {
                // The target has let go of the bus and waits for a
                // turnaround clock before the next request.
                Pins::swd_tx(hw);
                self.idle_low(hw);
                proof {
                    let at = Attempt { got, data: 0, parity: 0 };
                    assert(hw.trace() =~= old(hw).trace() + attempt_ops(self.spi(), x, at));
                    assert(tried(self.spi(), x, old(hw).trace(), hw.trace(), at));
                    assert(seq![at].last() == at);
                }
                return Err(e);
            },
        }

        let (data, parity) = hw.swd_rdata_phase(bus);

        // Drive SWDIO again, so that it does not float high.
        Pins::swd_tx(hw);

        let ghost at = Attempt { got, data, parity };
        proof {
            assert(hw.trace() =~= old(hw).trace() + attempt_ops(self.spi(), x, at));
            assert(tried(self.spi(), x, old(hw).trace(), hw.trace(), at));
            assert(seq![at].last() == at);
        }
        let parity = (parity & 1) as u32;
        let set = count_ones(data);
        proof {
            lemma_low_bit(set);
        }
        if parity == (set & 1) {
            Ok(data)
        } else {
            Err(Error::BadParity)
        }
    }

    /// Tries a write once.
    pub fn write_inner<H: Board>(&self, hw: &mut H, apndp: APnDP, a: u8, data: u32) -> (r: Result<
        (),
        Error,
    >)
        ensures
            exists|at: Attempt| #[trigger]
                tried(
                    self.spi(),
                    Access { apndp, rnw: RnW::W, a, data },
                    old(hw).trace(),
                    final(hw).trace(),
                    at,
                ) && r == write_result(Access { apndp, rnw: RnW::W, a, data }, seq![at]),
    {
        let ghost x = Access { apndp, rnw: RnW::W, a, data };
        let bus = self.spi.which();
        let req = Self::make_request(apndp, RnW::W, a);
        let set = count_ones(data);
        let parity = set & 1;
        proof {
            lemma_low_bit(set);
        }

        hw.spi_tx8(bus, req);
        hw.spi_wait_busy(bus);
        hw.spi_drain(bus);
        Pins::swd_rx(hw);

        // One clock for the turnaround, three for the acknowledgement and
        // one for the turnaround back.
        let got = hw.spi_rx5(bus);
        let ack = (got >> 1u8) & 0b111;
        Pins::swd_tx(hw);
        let ghost at = Attempt { got, data: 0, parity: 0 };
        match ACK::try_ok(ack) {
            Ok(_) => (),
            Err(e) => {
                proof {
                    assert(hw.trace() =~= old(hw).trace() + attempt_ops(self.spi(), x, at));
                    assert(tried(self.spi(), x, old(hw).trace(), hw.trace(), at));
                    assert(seq![at].last() == at);
                }
                return Err(e);
            },
        }

        // The trailing idle bits let the debug port take the write in.
        hw.swd_wdata_phase(bus, data, parity as u8);
        hw.spi_wait_busy(bus);
        proof {
            assert(hw.trace() =~= old(hw).trace() + attempt_ops(self.spi(), x, at));
            assert(tried(self.spi(), x, old(hw).trace(), hw.trace(), at));
            assert(seq![at].last() == at);
        }
        Ok(())
    }

    /// Reads register `a` of the given port, trying again while the target
    /// asks to wait.
    pub fn read<H: Board>(&self, hw: &mut H, apndp: APnDP, a: u8) -> (r: Result<u32, Error>)
        ensures
            exists|tries: Seq<Attempt>| #[trigger]
                performed(
                    self.spi(),
                    Access { apndp, rnw: RnW::R, a, data: 0 },
                    self.wait_retries(),
                    old(hw).trace(),
                    final(hw).trace(),
                    tries,
                ) && r == read_result(Access { apndp, rnw: RnW::R, a, data: 0 }, tries),
    {
        let ghost x = Access { apndp, rnw: RnW::R, a, data: 0 };
        let ghost mut tries: Seq<Attempt> = Seq::empty();
        let mut i: usize = 0;
        assert(hw.trace() =~= old(hw).trace() + access_ops(self.spi(), x, tries));
        while i < self.wait_retries
            invariant
                i <= self.wait_retries(),
                tries.len() == i,
                x == (Access { apndp, rnw: RnW::R, a, data: 0 }),
                forall|j: int|
                    0 <= j < tries.len() ==> attempt_error(x, #[trigger] tries[j]) == Some(
                        Error::AckWait,
                    ),
                hw.trace() == old(hw).trace() + access_ops(self.spi(), x, tries),
            decreases self.wait_retries() - i,
        {
            let ghost before = hw.trace();
            let r = self.read_inner(hw, apndp, a);
            proof {
                let at = choose|at: Attempt| #[trigger]
                    tried(self.spi(), x, before, hw.trace(), at) && r == read_result(x, seq![at]);
                let grown = tries.push(at);
                assert(seq![at].last() == at);
                assert(grown.drop_last() =~= tries);
                assert(hw.trace() =~= old(hw).trace() + access_ops(self.spi(), x, grown));
                tries = grown;
            }
            match r {
                Err(Error::AckWait) => {
                    i += 1;
                },
                _ => {
                    assert(performed(
                        self.spi(),
                        x,
                        self.wait_retries(),
                        old(hw).trace(),
                        hw.trace(),
                        tries,
                    ));
                    return r;
                },
            }
        }
        assert(performed(self.spi(), x, self.wait_retries(), old(hw).trace(), hw.trace(), tries));
        Err(Error::AckWait)
    }

    /// Writes `data` to register `a` of the given port, trying again while
    /// the target asks to wait.
    pub fn write<H: Board>(&self, hw: &mut H, apndp: APnDP, a: u8, data: u32) -> (r: Result<
        (),
        Error,
    >)
        ensures
            exists|tries: Seq<Attempt>| #[trigger]
                performed(
                    self.spi(),
                    Access { apndp, rnw: RnW::W, a, data },
                    self.wait_retries(),
                    old(hw).trace(),
                    final(hw).trace(),
                    tries,
                ) && r == write_result(Access { apndp, rnw: RnW::W, a, data }, tries),
    {
        let ghost x = Access { apndp, rnw: RnW::W, a, data };
        let ghost mut tries: Seq<Attempt> = Seq::empty();
        let mut i: usize = 0;
        assert(hw.trace() =~= old(hw).trace() + access_ops(self.spi(), x, tries));
        while i < self.wait_retries
            invariant
                i <= self.wait_retries(),
                tries.len() == i,
                x == (Access { apndp, rnw: RnW::W, a, data }),
                forall|j: int|
                    0 <= j < tries.len() ==> attempt_error(x, #[trigger] tries[j]) == Some(
                        Error::AckWait,
                    ),
                hw.trace() == old(hw).trace() + access_ops(self.spi(), x, tries),
            decreases self.wait_retries() - i,
        {
            let ghost before = hw.trace();
            let r = self.write_inner(hw, apndp, a, data);
            proof {
                let at = choose|at: Attempt| #[trigger]
                    tried(self.spi(), x, before, hw.trace(), at) && r == write_result(x, seq![at]);
                let grown = tries.push(at);
                assert(seq![at].last() == at);
                assert(grown.drop_last() =~= tries);
                assert(hw.trace() =~= old(hw).trace() + access_ops(self.spi(), x, grown));
                tries = grown;
            }
            match r {
                Err(Error::AckWait) => {
                    i += 1;
                },
                _ => {
                    assert(performed(
                        self.spi(),
                        x,
                        self.wait_retries(),
                        old(hw).trace(),
                        hw.trace(),
                        tries,
                    ));
                    return r;
                },
            }
        }
        assert(performed(self.spi(), x, self.wait_retries(), old(hw).trace(), hw.trace(), tries));
        Err(Error::AckWait)
    }

    /// Reads register `a` of the debug port.
    pub fn read_dp<H: Board>(&self, hw: &mut H, a: u8) -> (r: Result<u32, Error>)
        ensures
            exists|tries: Seq<Attempt>| #[trigger]
                performed(
                    self.spi(),
                    Access { apndp: APnDP::DP, rnw: RnW::R, a, data: 0 },
                    self.wait_retries(),
                    old(hw).trace(),
                    final(hw).trace(),
                    tries,
                ) && r == read_result(Access { apndp: APnDP::DP, rnw: RnW::R, a, data: 0 }, tries),
    {
        self.read(hw, APnDP::DP, a)
    }

    /// Writes `data` to register `a` of the debug port.
    pub fn write_dp<H: Board>(&self, hw: &mut H, a: u8, data: u32) -> (r: Result<(), Error>)
        ensures
            exists|tries: Seq<Attempt>| #[trigger]
                performed(
                    self.spi(),
                    Access { apndp: APnDP::DP, rnw: RnW::W, a, data },
                    self.wait_retries(),
                    old(hw).trace(),
                    final(hw).trace(),
                    tries,
                ) && r == write_result(Access { apndp: APnDP::DP, rnw: RnW::W, a, data }, tries),
    {
        self.write(hw, APnDP::DP, a, data)
    }

    /// Reads register `a` of the access port. The read is posted: the word
    /// returned is that of the access port read before this one.
    pub fn read_ap<H: Board>(&self, hw: &mut H, a: u8) -> (r: Result<u32, Error>)
        ensures
            exists|tries: Seq<Attempt>| #[trigger]
                performed(
                    self.spi(),
                    Access { apndp: APnDP::AP, rnw: RnW::R, a, data: 0 },
                    self.wait_retries(),
                    old(hw).trace(),
                    final(hw).trace(),
                    tries,
                ) && r == read_result(Access { apndp: APnDP::AP, rnw: RnW::R, a, data: 0 }, tries),
    {
        self.read(hw, APnDP::AP, a)
    }

    /// Writes `data` to register `a` of the access port.
    pub fn write_ap<H: Board>(&self, hw: &mut H, a: u8, data: u32) -> (r: Result<(), Error>)
        ensures
            exists|tries: Seq<Attempt>| #[trigger]
                performed(
                    self.spi(),
                    Access { apndp: APnDP::AP, rnw: RnW::W, a, data },
                    self.wait_retries(),
                    old(hw).trace(),
                    final(hw).trace(),
                    tries,
                ) && r == write_result(Access { apndp: APnDP::AP, rnw: RnW::W, a, data }, tries),
    {
        self.write(hw, APnDP::AP, a, data)
    }
}

/// The bits of a line reset: 56 clocks with SWDIO high.
pub open spec fn line_reset_bits() -> Seq<u8> {
    seq![0xFFu8, 0xFFu8, 0xFFu8, 0xFFu8, 0xFFu8, 0xFFu8, 0xFFu8]
}

/// The bits that take a debug port from JTAG to SWD: a line reset, the
/// switching sequence 0xE79E with its low bit first, another line reset,
/// and eight idle clocks with SWDIO low.
pub open spec fn jtag_to_swd_bits() -> Seq<u8> {
    line_reset_bits() + seq![0x9Eu8, 0xE7u8] + line_reset_bits() + seq![0x00u8]
}

impl SWD {
    /// Resets the line: clocks 56 bits with SWDIO high.
    pub fn line_reset<H: Board>(&self, hw: &mut H)
        ensures
            final(hw).trace() == old(hw).trace() + tx_sequence_ops(
                self.half_period(),
                line_reset_bits(),
                56,
            ),
    {
        let bits: [u8; 7] = [0xFF, 0xFF, 0xFF, 0xFF, 0xFF, 0xFF, 0xFF];
        assert(bits@ =~= line_reset_bits());
        self.tx_sequence(hw, bits.as_slice(), 56);
    }

    /// Takes the target's debug port from JTAG to SWD.
    pub fn jtag_to_swd<H: Board>(&self, hw: &mut H)
        ensures
            final(hw).trace() == old(hw).trace() + tx_sequence_ops(
                self.half_period(),
                jtag_to_swd_bits(),
                136,
            ),
    {
        let bits: [u8; 17] = [
            0xFF,
            0xFF,
            0xFF,
            0xFF,
            0xFF,
            0xFF,
            0xFF,
            0x9E,
            0xE7,
            0xFF,
            0xFF,
            0xFF,
            0xFF,
            0xFF,
            0xFF,
            0xFF,
            0x00,
        ];
        assert(bits@ =~= jtag_to_swd_bits());
        self.tx_sequence(hw, bits.as_slice(), 136);
    }
}

} // verus!
