//! The JTAG engine: TMS sequences and TDI/TDO shifts, bit-banged or
//! handed in bulk to the SPI peripheral.

use vstd::prelude::*;
use crate::bits::{bit_of, lemma_set_bit, lemma_zero_has_no_bits, test_bit};
use crate::board::{exchange_ops, Board, Line, Op, PinMode};
use crate::delay::{half_period_for, Delay};
use crate::slices::tail_mut;
use crate::spi::{prescaler_for, SPI};

verus! {

/// The line that carries TMS.
pub const TMS: Line = Line::Spi1Mosi;

/// The line that carries TCK.
pub const TCK: Line = Line::Spi2Clk;

/// The line that carries TDO.
pub const TDO: Line = Line::Spi2Miso;

/// The line that carries TDI.
pub const TDI: Line = Line::Spi2Mosi;

/// Bit `i` of a run of bytes, the least significant bit of each byte first.
pub open spec fn bit_at(data: Seq<u8>, i: int) -> bool {
    bit_of(data[i / 8], i % 8)
}

/// The first `n` bits of a run of bytes.
pub open spec fn bits_of(data: Seq<u8>, n: nat) -> Seq<bool> {
    Seq::new(n, |i: int| bit_at(data, i))
}

/// Trace of handing the data lines to the pins: TDO in, TDI out, TCK low and
/// out.
pub open spec fn bitbang_mode_ops() -> Seq<Op> {
    seq![
        Op::PinMode(TDO, PinMode::Input),
        Op::PinMode(TDI, PinMode::Output),
        Op::PinWrite(TCK, false),
        Op::PinMode(TCK, PinMode::Output),
    ]
}

/// Trace of handing the data lines to the SPI peripheral.
pub open spec fn spi_mode_ops() -> Seq<Op> {
    seq![
        Op::PinMode(TDO, PinMode::Alternate),
        Op::PinMode(TDI, PinMode::Alternate),
        Op::PinMode(TCK, PinMode::Alternate),
    ]
}

/// Trace of clocking one TMS bit: TMS is set, TCK falls, and after half a
/// period rises.
pub open spec fn tms_bit_ops(half: u32, bit: bool) -> Seq<Op> {
    seq![
        Op::PinWrite(TMS, bit),
        Op::PinWrite(TCK, false),
        Op::Wait(half),
        Op::PinWrite(TCK, true),
        Op::Wait(half),
    ]
}

/// Trace of clocking the first `n` bits of `data` out on TMS.
pub open spec fn tms_ops(half: u32, data: Seq<u8>, n: nat) -> Seq<Op>
    decreases n,
{
    if n == 0 {
        Seq::empty()
    } else {
        tms_ops(half, data, (n - 1) as nat) + tms_bit_ops(half, bit_at(data, n - 1))
    }
}

/// Trace of a TMS sequence: the data lines go to the pins, and after half a
/// period `bits` bits of `data` are clocked out, or all of `data` if it
/// holds fewer.
pub open spec fn tms_sequence_ops(half: u32, data: Seq<u8>, bits: nat) -> Seq<Op> {
    bitbang_mode_ops() + seq![Op::Wait(half)] + tms_ops(
        half,
        data,
        if bits <= 8 * data.len() {
            bits
        } else {
            8 * data.len()
        },
    )
}

/// Trace of shifting one bit out without capture: TDI is set half a period
/// before TCK rises, and TCK falls half a period later.
pub open spec fn wo_bit_ops(half: u32, bit: bool) -> Seq<Op> {
    seq![
        Op::PinWrite(TDI, bit),
        Op::Wait(half),
        Op::PinWrite(TCK, true),
        Op::Wait(half),
        Op::PinWrite(TCK, false),
    ]
}

/// Trace of shifting the first `n` bits of `tdi` out without capture.
pub open spec fn wo_ops(half: u32, tdi: Seq<u8>, n: nat) -> Seq<Op>
    decreases n,
{
    if n == 0 {
        Seq::empty()
    } else {
        wo_ops(half, tdi, (n - 1) as nat) + wo_bit_ops(half, bit_at(tdi, n - 1))
    }
}

/// Trace of shifting one bit with capture: TDI is set half a period before
/// TCK rises, and TDO is sampled half a period later, just before TCK falls.
pub open spec fn rw_bit_ops(half: u32, bit: bool, sample: bool) -> Seq<Op> {
    seq![
        Op::PinWrite(TDI, bit),
        Op::Wait(half),
        Op::PinWrite(TCK, true),
        Op::Wait(half),
        Op::PinRead(TDO, sample),
        Op::PinWrite(TCK, false),
    ]
}

/// Trace of shifting as many bits of `tdi` out as `samples` has entries,
/// where `samples` are the levels sampled on TDO.
pub open spec fn rw_ops(half: u32, tdi: Seq<u8>, samples: Seq<bool>) -> Seq<Op>
    decreases samples.len(),
{
    if samples.len() == 0 {
        Seq::empty()
    } else {
        rw_ops(half, tdi, samples.drop_last()) + rw_bit_ops(
            half,
            bit_at(tdi, samples.len() - 1),
            samples.last(),
        )
    }
}

/// Number of bytes that hold `bits` bits.
pub open spec fn bytes_for(bits: nat) -> nat {
    (bits + 7) / 8
}

/// The JTAG engine.
pub struct JTAG {
    /// The SPI peripheral that shifts in bulk.
    pub spi: SPI,
    /// The timer.
    pub delay: Delay,
    /// Half of a TCK period, in timer ticks.
    pub half_period_ticks: u32,
    /// Whether every sequence is bit-banged, none handed to the SPI
    /// peripheral.
    pub use_bitbang: bool,
}

impl JTAG {
    /// Half of a TCK period, in timer ticks.
    pub open spec fn half_period(&self) -> u32 {
        self.half_period_ticks
    }

    /// Whether every sequence is bit-banged, none handed to the SPI
    /// peripheral.
    pub open spec fn bitbang(&self) -> bool {
        self.use_bitbang
    }

    /// The SPI peripheral that shifts in bulk.
    pub open spec fn spi(&self) -> SPI {
        self.spi
    }

    /// The timer.
    pub open spec fn delay(&self) -> Delay {
        self.delay
    }

    /// An engine on the given SPI peripheral and timer. It starts out
    /// bit-banging, with a half period of 10000 ticks.
    pub fn new(spi: SPI, delay: Delay) -> (jtag: Self)
        ensures
            jtag.spi() == spi,
            jtag.delay() == delay,
            jtag.half_period() == 10000,
            jtag.bitbang(),
    {
        JTAG { spi, delay, half_period_ticks: 10000, use_bitbang: true }
    }

    /// Hands the data lines to the pins.
    pub fn bitbang_mode<H: Board>(&self, hw: &mut H)
        ensures
            final(hw).trace() == old(hw).trace() + bitbang_mode_ops(),
    {
        hw.pin_mode(TDO, PinMode::Input);
        hw.pin_mode(TDI, PinMode::Output);
        hw.pin_write(TCK, false);
        hw.pin_mode(TCK, PinMode::Output);
        assert(hw.trace() =~= old(hw).trace() + bitbang_mode_ops());
    }

    /// Hands the data lines to the SPI peripheral.
    pub fn spi_mode<H: Board>(&self, hw: &mut H)
        ensures
            final(hw).trace() == old(hw).trace() + spi_mode_ops(),
    {
        hw.pin_mode(TDO, PinMode::Alternate);
        hw.pin_mode(TDI, PinMode::Alternate);
        hw.pin_mode(TCK, PinMode::Alternate);
        assert(hw.trace() =~= old(hw).trace() + spi_mode_ops());
    }

    /// Sets the SPI peripheral up for JTAG.
    pub fn spi_enable<H: Board>(&self, hw: &mut H)
        ensures
            final(hw).trace() == old(hw).trace().push(Op::SpiSetupJtag(self.spi().bus())),
    {
        hw.spi_setup_jtag(self.spi.which());
    }

    /// Disables the SPI peripheral.
    pub fn spi_disable<H: Board>(&self, hw: &mut H)
        ensures
            final(hw).trace() == old(hw).trace().push(Op::SpiDisable(self.spi().bus())),
    {
        hw.spi_disable(self.spi.which());
    }

    /// Clocks `bits` bits of `data` out on TMS, the least significant bit of
    /// each byte first, or all of `data` if it holds fewer bits.
    pub fn tms_sequence<H: Board>(&self, hw: &mut H, data: &[u8], bits: usize)
        ensures
            final(hw).trace() == old(hw).trace() + tms_sequence_ops(
                self.half_period(),
                data@,
                bits as nat,
            ),
    {
        self.bitbang_mode(hw);
        let half = self.half_period_ticks;
        let mut last = hw.now();
        last = hw.delay_ticks_from_last(half, last);
        let ghost base = hw.trace();
        assert(base =~= old(hw).trace() + bitbang_mode_ops() + seq![Op::Wait(half)]);
        let mut bits = bits;
        let ghost bits0 = bits;
        let ghost mut clocked: nat = 0;
        let mut j: usize = 0;
        while j < data.len()
            invariant
                j <= data@.len(),
                half == self.half_period(),
                clocked == (if bits0 <= 8 * j {
                    bits0 as nat
                } else {
                    (8 * j) as nat
                }),
                bits == bits0 - clocked,
                hw.trace() == base + tms_ops(half, data@, clocked),
            decreases data@.len() - j,
        {
            let byte = data[j];
            let frame_bits: u8 = if bits < 8 {
                bits as u8
            } else {
                8
            };
            let mut k: u8 = 0;
            while k < frame_bits
                invariant
                    k <= frame_bits <= 8,
                    j < data@.len(),
                    byte == data@[j as int],
                    frame_bits > 0 ==> clocked == 8 * j,
                    hw.trace() == base + tms_ops(half, data@, clocked + k as nat),
                decreases frame_bits - k,
            {
                let bit = test_bit(byte, k);
                let ghost before = hw.trace();
                hw.pin_write(TMS, bit);
                hw.pin_write(TCK, false);
                last = hw.delay_ticks_from_last(half, last);
                hw.pin_write(TCK, true);
                last = hw.delay_ticks_from_last(half, last);
                proof {
                    let n = clocked + k as nat;
                    assert(bit == bit_at(data@, n as int));
                    assert(hw.trace() =~= before + tms_bit_ops(half, bit));
                    assert(hw.trace() =~= base + tms_ops(half, data@, n + 1));
                }
                k += 1;
            }
            proof {
                clocked = clocked + frame_bits as nat;
            }
            bits -= frame_bits as usize;
            j += 1;
        }
    }

    /// Shifts the `n` bits of `tdi` out on TDI, the least significant bit of
    /// each byte first, without capturing TDO.
    pub fn transfer_wo<H: Board>(&self, hw: &mut H, n: usize, tdi: &[u8])
        requires
            tdi@.len() == bytes_for(n as nat),
        ensures
            final(hw).trace() == old(hw).trace() + wo_ops(self.half_period(), tdi@, n as nat),
    {
        let half = self.half_period_ticks;
        let mut last = hw.now();
        let ghost base = hw.trace();
        assert(base =~= base + wo_ops(half, tdi@, 0));
        let mut j: usize = 0;
        while j < tdi.len()
            invariant
                j <= tdi@.len(),
                tdi@.len() == bytes_for(n as nat),
                half == self.half_period(),
                hw.trace() == base + wo_ops(
                    half,
                    tdi@,
                    if n <= 8 * j {
                        n as nat
                    } else {
                        (8 * j) as nat
                    },
                ),
            decreases tdi@.len() - j,
        {
            let byte = tdi[j];
            let mut k: u8 = 0;
            while k < 8 && j * 8 + (k as usize) < n
                invariant
                    k <= 8,
                    j < tdi@.len(),
                    tdi@.len() == bytes_for(n as nat),
                    byte == tdi@[j as int],
                    8 * j + k <= n,
                    hw.trace() == base + wo_ops(half, tdi@, (8 * j + k) as nat),
                decreases 8 - k,
            {
                let bit = test_bit(byte, k);
                let ghost before = hw.trace();
                hw.pin_write(TDI, bit);
                last = hw.delay_ticks_from_last(half, last);
                hw.pin_write(TCK, true);
                last = hw.delay_ticks_from_last(half, last);
                hw.pin_write(TCK, false);
                proof {
                    let i = (8 * j + k) as nat;
                    assert(bit == bit_at(tdi@, i as int));
                    assert(hw.trace() =~= before + wo_bit_ops(half, bit));
                    assert(hw.trace() =~= base + wo_ops(half, tdi@, i + 1));
                }
                k += 1;
            }
            j += 1;
        }
    }

    /// Shifts the `n` bits of `tdi` out on TDI and captures as many from TDO
    /// into `tdo`, the least significant bit of each byte first. The bits of
    /// the last captured byte beyond `n` are zero; `tdo` is untouched beyond
    /// the captured bytes.
    pub fn transfer_rw<H: Board>(&self, hw: &mut H, n: usize, tdi: &[u8], tdo: &mut [u8])
        requires
            tdi@.len() == bytes_for(n as nat),
            tdi@.len() <= old(tdo)@.len(),
        ensures
            final(tdo)@.len() == old(tdo)@.len(),
            final(tdo)@.skip(tdi@.len() as int) == old(tdo)@.skip(tdi@.len() as int),
            forall|i: int| n <= i < 8 * tdi@.len() ==> !bit_at(final(tdo)@, i),
            final(hw).trace() == old(hw).trace() + rw_ops(
                self.half_period(),
                tdi@,
                bits_of(final(tdo)@, n as nat),
            ),
    {
        let half = self.half_period_ticks;
        let mut last = hw.now();
        let ghost base = hw.trace();
        let ghost mut samples: Seq<bool> = Seq::empty();
        assert(base =~= base + rw_ops(half, tdi@, samples));
        let mut j: usize = 0;
        while j < tdi.len()
            invariant
                j <= tdi@.len(),
                tdi@.len() == bytes_for(n as nat),
                tdi@.len() <= tdo@.len(),
                tdo@.len() == old(tdo)@.len(),
                half == self.half_period(),
                samples.len() == (if n <= 8 * j {
                    n as nat
                } else {
                    (8 * j) as nat
                }),
                hw.trace() == base + rw_ops(half, tdi@, samples),
                forall|i: int| 0 <= i < samples.len() ==> bit_at(tdo@, i) == samples[i],
                forall|i: int| n <= i < 8 * j ==> !bit_at(tdo@, i),
                forall|i: int| j <= i < tdo@.len() ==> tdo@[i] == old(tdo)@[i],
            decreases tdi@.len() - j,
        {
            let byte = tdi[j];
            let mut r: u8 = 0;
            let mut k: u8 = 0;
            let ghost done = samples;
            proof {
                assert forall|m: int| 0 <= m < 8 implies !bit_of(r, m) by {
                    lemma_zero_has_no_bits(m as u8);
                }
            }
            while k < 8 && j * 8 + (k as usize) < n
                invariant
                    k <= 8,
                    j < tdi@.len(),
                    tdi@.len() == bytes_for(n as nat),
                    byte == tdi@[j as int],
                    8 * j + k <= n,
                    samples.len() == 8 * j + k,
                    samples.take(8 * j) == done,
                    hw.trace() == base + rw_ops(half, tdi@, samples),
                    forall|m: int| 0 <= m < k ==> bit_of(r, m) == samples[8 * j + m],
                    forall|m: int| k <= m < 8 ==> !bit_of(r, m),
                decreases 8 - k,
            {
                let bit = test_bit(byte, k);
                let ghost before = hw.trace();
                let ghost r0 = r;
                hw.pin_write(TDI, bit);
                last = hw.delay_ticks_from_last(half, last);
                hw.pin_write(TCK, true);
                last = hw.delay_ticks_from_last(half, last);
                let sample = hw.pin_read(TDO);
                if sample {
                    r = r | (1u8 << k);
                }
                hw.pin_write(TCK, false);
                proof {
                    let i = (8 * j + k) as int;
                    let grown = samples.push(sample);
                    assert(bit == bit_at(tdi@, i));
                    assert(grown.drop_last() =~= samples);
                    assert(hw.trace() =~= before + rw_bit_ops(half, bit, sample));
                    assert(hw.trace() =~= base + rw_ops(half, tdi@, grown));
                    assert(grown.take(8 * j) =~= done);
                    assert forall|m: int| 0 <= m < 8 implies bit_of(r, m) == (if sample {
                        m == k || bit_of(r0, m)
                    } else {
                        bit_of(r0, m)
                    }) by {
                        lemma_set_bit(r0, k, m as u8);
                    }
                    samples = grown;
                }
                k += 1;
            }
            let ghost prev = tdo@;
            tdo[j] = r;
            proof {
                assert forall|i: int| 0 <= i < samples.len() implies bit_at(tdo@, i)
                    == samples[i] by {
                    if i < 8 * j {
                        assert(tdo@[i / 8] == prev[i / 8]);
                        assert(samples[i] == done[i]);
                    } else {
                        assert(i / 8 == j);
                    }
                }
                assert forall|i: int| n <= i < 8 * (j + 1) implies !bit_at(tdo@, i) by {
                    if i < 8 * j {
                        assert(tdo@[i / 8] == prev[i / 8]);
                    } else {
                        assert(i / 8 == j);
                    }
                }
            }
            j += 1;
        }
        proof {
            assert(samples =~= bits_of(tdo@, n as nat));
            assert(tdo@.skip(tdi@.len() as int) =~= old(tdo)@.skip(tdi@.len() as int));
        }
    }
}

/// Number of clock cycles that a sequence header asks for: its low six bits,
/// where 0 stands for 64.
pub open spec fn header_bits(header: u8) -> nat {
    if header & 0x3f == 0 {
        64
    } else {
        (header & 0x3f) as nat
    }
}

/// Number of TDI bytes that follow a sequence header.
pub open spec fn header_bytes(header: u8) -> nat {
    bytes_for(header_bits(header))
}

/// Whether a sequence header asks for TDO to be captured.
pub open spec fn header_captures(header: u8) -> bool {
    header & 0x80 != 0
}

/// The level a sequence header asks TMS to be held at.
pub open spec fn header_tms(header: u8) -> bool {
    header & 0x40 != 0
}

/// Whether the sequence at the head of `data` joins a run for the SPI
/// peripheral: of `nseqs` sequences some are left, its capture and TMS bits
/// are those of `kind`, it has a whole number of bytes, and its TDI bytes
/// are all there.
pub open spec fn joins_run(data: Seq<u8>, nseqs: nat, kind: u8) -> bool {
    &&& nseqs > 0
    &&& data.len() > 0
    &&& data[0] & 0xC0 == kind
    &&& (data[0] & 0x3f) & 7 == 0
    &&& data.len() >= header_bytes(data[0]) + 1
}

/// Number of sequences at the head of `data` that make up the run for the
/// SPI peripheral.
pub open spec fn run_count(data: Seq<u8>, nseqs: nat, kind: u8) -> nat
    decreases nseqs,
{
    if joins_run(data, nseqs, kind) {
        1 + run_count(data.skip(1 + header_bytes(data[0]) as int), (nseqs - 1) as nat, kind)
    } else {
        0
    }
}

/// Number of bytes of `data` that the run for the SPI peripheral takes up,
/// headers included.
pub open spec fn run_consumed(data: Seq<u8>, nseqs: nat, kind: u8) -> nat
    decreases nseqs,
{
    if joins_run(data, nseqs, kind) {
        1 + header_bytes(data[0]) + run_consumed(
            data.skip(1 + header_bytes(data[0]) as int),
            (nseqs - 1) as nat,
            kind,
        )
    } else {
        0
    }
}

/// The TDI bytes of the run for the SPI peripheral, in order.
pub open spec fn run_tdi(data: Seq<u8>, nseqs: nat, kind: u8) -> Seq<u8>
    decreases nseqs,
{
    if joins_run(data, nseqs, kind) {
        data.subrange(1, 1 + header_bytes(data[0]) as int) + run_tdi(
            data.skip(1 + header_bytes(data[0]) as int),
            (nseqs - 1) as nat,
            kind,
        )
    } else {
        Seq::empty()
    }
}

/// One sequence of a request: its header and its TDI bytes.
pub struct Shift {
    pub header: u8,
    pub tdi: Seq<u8>,
}

/// Whether a whole sequence stands at the head of `data`, with some of
/// `nseqs` sequences left.
pub open spec fn heads_shift(data: Seq<u8>, nseqs: nat) -> bool {
    &&& nseqs > 0
    &&& data.len() > 0
    &&& data.len() - 1 >= header_bytes(data[0])
}

/// The sequences that `data` holds, up to `nseqs` of them and up to the
/// first that is cut short, if one is.
pub open spec fn shifts(data: Seq<u8>, nseqs: nat) -> Seq<Shift>
    decreases nseqs,
{
    if heads_shift(data, nseqs) {
        seq![Shift { header: data[0], tdi: data.subrange(1, 1 + header_bytes(data[0]) as int) }]
            + shifts(data.skip(1 + header_bytes(data[0]) as int), (nseqs - 1) as nat)
    } else {
        Seq::empty()
    }
}

/// Number of bytes that the capturing ones among `list` capture.
pub open spec fn captured_len(list: Seq<Shift>) -> nat
    decreases list.len(),
{
    if list.len() == 0 {
        0
    } else {
        captured_len(list.drop_last()) + if header_captures(list.last().header) {
            list.last().tdi.len()
        } else {
            0
        }
    }
}

/// Trace of bit-banging the sequences of `list` one after the other, where
/// `rx` holds the bytes that the capturing ones captured, in order. Each
/// sequence sets TMS first.
pub open spec fn shifts_ops(half: u32, list: Seq<Shift>, rx: Seq<u8>) -> Seq<Op>
    decreases list.len(),
{
    if list.len() == 0 {
        Seq::empty()
    } else {
        let last = list.last();
        let nbytes = last.tdi.len();
        if header_captures(last.header) {
            shifts_ops(half, list.drop_last(), rx.take(rx.len() - nbytes)) + seq![
                Op::PinWrite(TMS, header_tms(last.header)),
            ] + rw_ops(
                half,
                last.tdi,
                bits_of(rx.skip(rx.len() - nbytes), header_bits(last.header)),
            )
        } else {
            shifts_ops(half, list.drop_last(), rx) + seq![
                Op::PinWrite(TMS, header_tms(last.header)),
            ] + wo_ops(half, last.tdi, header_bits(last.header))
        }
    }
}

/// In what the capturing ones among `list` captured, held by `rx` in order,
/// the bits that fill up the last byte of each sequence are zero.
pub open spec fn padded(list: Seq<Shift>, rx: Seq<u8>) -> bool
    decreases list.len(),
{
    if list.len() == 0 {
        true
    } else {
        let last = list.last();
        let nbytes = last.tdi.len();
        if header_captures(last.header) {
            &&& padded(list.drop_last(), rx.take(rx.len() - nbytes))
            &&& forall|i: int|
                header_bits(last.header) <= i < 8 * nbytes ==> !#[trigger] bit_at(
                    rx.skip(rx.len() - nbytes),
                    i,
                )
        } else {
            padded(list.drop_last(), rx)
        }
    }
}

/// Whether a request asks for anything: it names at least one sequence, and
/// holds every sequence that it names with all its TDI bytes.
pub open spec fn asks_for_shifts(data: Seq<u8>) -> bool {
    &&& data.len() >= 2
    &&& data[0] != 0
    &&& shifts(data.skip(1), data[0] as nat).len() == data[0]
}

/// Whether a request asks for anything.
pub fn is_whole(data: &[u8]) -> (whole: bool)
    ensures
        whole == asks_for_shifts(data@),
{
    if data.len() < 2 {
        return false;
    }
    let mut nseqs: u8 = data[0];
    if nseqs == 0 {
        return false;
    }
    let ghost n0 = nseqs as nat;
    let mut pos: usize = 1;
    while nseqs > 0
        invariant
            1 <= pos <= data@.len() <= usize::MAX,
            nseqs <= n0 == data@[0],
            shifts(data@.skip(1), n0).len() == (n0 - nseqs) + shifts(
                data@.skip(pos as int),
                nseqs as nat,
            ).len(),
        decreases nseqs,
    {
        let ghost rest = data@.skip(pos as int);
        if pos >= data.len() {
            return false;
        }
        let header = data[pos];
        assert(rest[0] == header);
        proof {
            lemma_header_bits(header);
        }
        let low = header & 0x3f;
        let nbits: usize = if low == 0 {
            64
        } else {
            low as usize
        };
        let nbytes: usize = (nbits + 7) / 8;
        if data.len() - pos - 1 < nbytes {
            return false;
        }
        assert(heads_shift(rest, nseqs as nat));
        assert(rest.skip(1 + nbytes) =~= data@.skip(pos + 1 + nbytes));
        pos += 1 + nbytes;
        nseqs -= 1;
    }
    true
}

proof fn lemma_header_bits(header: u8)
    ensures
        1 <= header_bits(header) <= 64,
        1 <= header_bytes(header) <= 8,
        (header & 0x3f) <= 63,
        (header & 0x3f) & 7 == 0 ==> header_bits(header) == 8 * header_bytes(header),
{
    assert(header & 0x3f <= 63) by (bit_vector);
    let low = header & 0x3f;
    assert(low & 7 == 0 ==> low % 8 == 0) by (bit_vector);
}

impl JTAG {
    /// The TDI bytes that a request's leading sequences hand to the SPI
    /// peripheral in one exchange: none while the engine bit-bangs.
    pub open spec fn bulk_tdi(&self, data: Seq<u8>) -> Seq<u8> {
        if self.bitbang() {
            Seq::empty()
        } else {
            run_tdi(data.skip(1), data[0] as nat, data[1] & 0xC0)
        }
    }

    /// The sequences of a request that are bit-banged: those after the ones
    /// handed to the SPI peripheral.
    pub open spec fn bitbanged(&self, data: Seq<u8>) -> Seq<Shift> {
        if self.bitbang() {
            shifts(data.skip(1), data[0] as nat)
        } else {
            let kind = data[1] & 0xC0;
            shifts(
                data.skip(1 + run_consumed(data.skip(1), data[0] as nat, kind) as int),
                (data[0] - run_count(data.skip(1), data[0] as nat, kind)) as nat,
            )
        }
    }

    /// Number of bytes of the capture buffer that a request needs: room for
    /// what comes in during the exchange through the SPI peripheral, which
    /// is stored whether the request captures it or not, and room for all
    /// that the request captures.
    pub open spec fn room_needed(&self, data: Seq<u8>) -> nat {
        if asks_for_shifts(data) {
            let bulk = self.bulk_tdi(data).len();
            let captured = self.captured(data);
            if bulk <= captured {
                captured
            } else {
                bulk
            }
        } else {
            0
        }
    }

    /// Number of bytes that a request captures.
    pub open spec fn captured(&self, data: Seq<u8>) -> nat {
        if asks_for_shifts(data) {
            (if header_captures(data[1]) {
                self.bulk_tdi(data).len()
            } else {
                0
            }) + captured_len(self.bitbanged(data))
        } else {
            0
        }
    }

    /// Trace of the exchange through the SPI peripheral, in which `tdi` went
    /// out and `rx` came in: TMS is set, the data lines go to the
    /// peripheral, the bytes are exchanged, TDI is latched at the last bit
    /// sent, and the data lines go back to the pins.
    pub open spec fn bulk_ops(&self, kind: u8, tdi: Seq<u8>, rx: Seq<u8>) -> Seq<Op> {
        seq![Op::PinWrite(TMS, header_tms(kind))] + spi_mode_ops() + exchange_ops(
            self.spi().bus(),
            tdi,
            rx,
        ) + seq![Op::PinWrite(TDI, tdi.last() >> 7 != 0)] + bitbang_mode_ops() + seq![
            Op::SpiDisable(self.spi().bus()),
        ]
    }

    /// Trace of a request that asks for something, where `out` holds the
    /// captured bytes and `bulk_rx` what came in during the exchange through
    /// the SPI peripheral.
    pub open spec fn sequences_ops(&self, data: Seq<u8>, out: Seq<u8>, bulk_rx: Seq<u8>) -> Seq<
        Op,
    > {
        let bulk = self.bulk_tdi(data);
        let kept = if header_captures(data[1]) {
            bulk.len()
        } else {
            0
        };
        seq![Op::Wait(self.half_period())] + (if bulk.len() > 0 {
            self.bulk_ops(data[1] & 0xC0, bulk, bulk_rx)
        } else {
            Seq::empty()
        }) + shifts_ops(self.half_period(), self.bitbanged(data), out.skip(kept as int))
    }

    /// What `sequences` leaves behind for a request that asks for something:
    /// the trace grew by the request's operations, and where the exchange
    /// through the SPI peripheral captures, what came in is the start of
    /// the captured bytes. Where a bit-banged sequence does not fill its
    /// last captured byte, the bits left over are zero.
    pub open spec fn sequences_done(
        &self,
        data: Seq<u8>,
        before: Seq<Op>,
        after: Seq<Op>,
        out: Seq<u8>,
        bulk_rx: Seq<u8>,
    ) -> bool {
        let kept = if header_captures(data[1]) {
            bulk_rx.len()
        } else {
            0
        };
        &&& bulk_rx.len() == self.bulk_tdi(data).len()
        &&& header_captures(data[1]) ==> bulk_rx == out.take(bulk_rx.len() as int)
        &&& after == before + self.sequences_ops(data, out, bulk_rx)
        &&& padded(self.bitbanged(data), out.skip(kept as int))
    }

    /// The engine after its clock was set to at most `max_frequency` Hz: it
    /// has the half period for that frequency, and bit-bangs where no
    /// divider of the SPI clock reaches it. No clock is as slow as 0 Hz,
    /// and the engine is then as it was.
    pub open spec fn with_clock(self, max_frequency: u32) -> JTAG {
        if max_frequency == 0 {
            self
        } else {
            JTAG {
                half_period_ticks: half_period_for(self.delay.base_clock, max_frequency) as u32,
                use_bitbang: prescaler_for(self.spi.base_clock, max_frequency) is None,
                ..self
            }
        }
    }

    /// Trace of setting the clock to at most `max_frequency` Hz: the
    /// divider of the SPI clock is set, where there is one for it.
    pub open spec fn clock_ops(self, max_frequency: u32) -> Seq<Op> {
        if max_frequency == 0 {
            Seq::empty()
        } else {
            match prescaler_for(self.spi.base_clock, max_frequency) {
                Some(p) => seq![Op::SpiPrescaler(self.spi.bus, p)],
                None => Seq::empty(),
            }
        }
    }

    /// What `sequences` leaves in the capture buffer `rx` for a request that
    /// asks for something, where it returned `written`: the captured bytes
    /// at its start, as `sequences_done` says, and after them what came in
    /// during the exchange through the SPI peripheral, as far as that
    /// reaches.
    pub open spec fn sequences_stored(
        &self,
        data: Seq<u8>,
        before: Seq<Op>,
        after: Seq<Op>,
        rx: Seq<u8>,
        written: int,
        bulk_rx: Seq<u8>,
    ) -> bool {
        &&& self.sequences_done(data, before, after, rx.take(written), bulk_rx)
        &&& forall|i: int| written <= i < bulk_rx.len() ==> #[trigger] rx[i] == bulk_rx[i]
    }

    /// Sets the TCK frequency to at most `max_frequency` Hz. Where a divider
    /// of the SPI clock reaches it, the engine hands whole-byte sequences to
    /// the SPI peripheral from now on; else it bit-bangs all of them. The
    /// half period for bit-banging is rounded up, so that the clock never
    /// runs faster than asked. For 0 Hz nothing changes.
    pub fn set_clock<H: Board>(&mut self, hw: &mut H, max_frequency: u32)
        ensures
            *final(self) == old(self).with_clock(max_frequency),
            final(hw).trace() == old(hw).trace() + old(self).clock_ops(max_frequency),
    {
        match self.delay.half_period_ticks(max_frequency) {
            None => {
                assert(hw.trace() =~= old(hw).trace() + old(self).clock_ops(max_frequency));
                return ;
            },
            Some(ticks) => {
                self.half_period_ticks = ticks;
            },
        }
        match self.spi.calculate_prescaler(max_frequency) {
            Some(prescaler) => {
                hw.spi_set_prescaler(self.spi.which(), prescaler);
                self.use_bitbang = false;
            },
            None => {
                self.use_bitbang = true;
            },
        }
        assert(hw.trace() =~= old(hw).trace() + old(self).clock_ops(max_frequency));
    }

    /// Collects the TDI bytes of the run for the SPI peripheral that starts
    /// at `data[1]`. Returns them, the index in `data` of the first byte
    /// after the run, and the number of sequences left.
    fn gather_run(data: &[u8], nseqs: u8, kind: u8) -> (r: (Vec<u8>, usize, u8))
        requires
            data@.len() >= 2,
            nseqs > 0,
        ensures
            r.0@ == run_tdi(data@.skip(1), nseqs as nat, kind),
            r.1 - 1 == run_consumed(data@.skip(1), nseqs as nat, kind),
            nseqs - r.2 == run_count(data@.skip(1), nseqs as nat, kind),
            1 <= r.1 <= data@.len(),
            r.2 <= nseqs,
            r.0@.len() + (nseqs - r.2) + 1 <= r.1,
            r.0@.len() > 0 ==> r.2 < nseqs,
    {
        let ghost n0 = nseqs as nat;
        let ghost body = data@.skip(1);
        let mut nseqs = nseqs;
        let mut pos: usize = 1;
        let mut buffer: Vec<u8> = Vec::new();
        let total = data.len();
        assert(buffer@ + run_tdi(body, n0, kind) =~= run_tdi(body, n0, kind));
        while nseqs > 0
            invariant
                1 <= pos <= data@.len() <= usize::MAX,
                nseqs <= n0,
                body == data@.skip(1),
                buffer@.len() + (n0 - nseqs) + 1 <= pos,
                buffer@.len() > 0 ==> nseqs < n0,
                run_tdi(body, n0, kind) == buffer@ + run_tdi(
                    data@.skip(pos as int),
                    nseqs as nat,
                    kind,
                ),
                run_count(body, n0, kind) == (n0 - nseqs) + run_count(
                    data@.skip(pos as int),
                    nseqs as nat,
                    kind,
                ),
                run_consumed(body, n0, kind) == (pos - 1) + run_consumed(
                    data@.skip(pos as int),
                    nseqs as nat,
                    kind,
                ),
            ensures
                1 <= pos <= data@.len(),
                nseqs <= n0,
                buffer@.len() + (n0 - nseqs) + 1 <= pos,
                buffer@.len() > 0 ==> nseqs < n0,
                run_tdi(body, n0, kind) == buffer@,
                run_count(body, n0, kind) == n0 - nseqs,
                run_consumed(body, n0, kind) == pos - 1,
            decreases nseqs,
        {
            let ghost rest = data@.skip(pos as int);
            if pos >= data.len() {
                assert(buffer@ + Seq::<u8>::empty() =~= buffer@);
                break ;
            }
            let header = data[pos];
            assert(rest[0] == header);
            proof {
                lemma_header_bits(header);
            }
            if header & 0xC0 != kind {
                assert(buffer@ + Seq::<u8>::empty() =~= buffer@);
                break ;
            }
            let low = header & 0x3f;
            if low & 7 != 0 {
                assert(buffer@ + Seq::<u8>::empty() =~= buffer@);
                break ;
            }
            let nbits: usize = if low == 0 {
                64
            } else {
                low as usize
            };
            let nbytes: usize = (nbits + 7) / 8;
            if data.len() - pos < nbytes + 1 {
                assert(buffer@ + Seq::<u8>::empty() =~= buffer@);
                break ;
            }
            assert(joins_run(rest, nseqs as nat, kind));
            let ghost taken = buffer@;
            let mut i: usize = 0;
            while i < nbytes
                invariant
                    i <= nbytes,
                    pos + 1 + nbytes <= data@.len() <= usize::MAX,
                    buffer@ == taken + data@.subrange(pos + 1, pos + 1 + i),
                decreases nbytes - i,
            {
                buffer.push(data[pos + 1 + i]);
                assert(buffer@ =~= taken + data@.subrange(pos + 1, pos + 1 + i + 1));
                i += 1;
            }
            proof {
                assert(rest.subrange(1, 1 + nbytes) =~= data@.subrange(pos + 1, pos + 1 + nbytes));
                assert(rest.skip(1 + nbytes) =~= data@.skip(pos + 1 + nbytes));
                let tail = run_tdi(data@.skip(pos + 1 + nbytes), (nseqs - 1) as nat, kind);
                assert(taken + (rest.subrange(1, 1 + nbytes) + tail) =~= buffer@ + tail);
            }
            pos += 1 + nbytes;
            nseqs -= 1;
        }
        (buffer, pos, nseqs)
    }

    /// Exchanges `tdi` through the SPI peripheral, with TMS at the level that
    /// `kind` asks for. What comes in goes to the start of `rxbuf`.
    fn exchange_run<H: Board>(&self, hw: &mut H, kind: u8, tdi: &[u8], rxbuf: &mut [u8])
        requires
            0 < tdi@.len() <= old(rxbuf)@.len(),
        ensures
            final(rxbuf)@.len() == old(rxbuf)@.len(),
            final(rxbuf)@.skip(tdi@.len() as int) == old(rxbuf)@.skip(tdi@.len() as int),
            final(hw).trace() == old(hw).trace() + self.bulk_ops(
                kind,
                tdi@,
                final(rxbuf)@.take(tdi@.len() as int),
            ),
    {
        hw.pin_write(TMS, kind & 0x40 != 0);
        self.spi_mode(hw);
        hw.jtag_exchange(self.spi.which(), tdi, rxbuf);
        // Latch TDI at the last bit sent, so that it keeps its level when
        // the line goes back to the pin.
        let last = tdi[tdi.len() - 1];
        hw.pin_write(TDI, (last >> 7) != 0);
        self.bitbang_mode(hw);
        hw.spi_disable(self.spi.which());
        proof {
            assert(tdi@.last() == last);
            assert(hw.trace() =~= old(hw).trace() + self.bulk_ops(
                kind,
                tdi@,
                rxbuf@.take(tdi@.len() as int),
            ));
        }
    }

    /// Bit-bangs one sequence with the given header, `nbits` bits long. Where
    /// the header asks for it, what TDO carries goes to the start of `out`,
    /// with zeros for the bits that fill up the last byte.
    fn shift_one<H: Board>(&self, hw: &mut H, header: u8, nbits: usize, tdi: &[u8], out: &mut [u8])
        requires
            nbits == header_bits(header),
            tdi@.len() == bytes_for(nbits as nat),
            header_captures(header) ==> tdi@.len() <= old(out)@.len(),
        ensures
            final(out)@.len() == old(out)@.len(),
            header_captures(header) ==> {
                &&& final(out)@.skip(tdi@.len() as int) == old(out)@.skip(tdi@.len() as int)
                &&& forall|i: int| nbits <= i < 8 * tdi@.len() ==> !bit_at(final(out)@, i)
                &&& final(hw).trace() == old(hw).trace() + (seq![
                    Op::PinWrite(TMS, header_tms(header)),
                ] + rw_ops(self.half_period(), tdi@, bits_of(final(out)@, nbits as nat)))
            },
            !header_captures(header) ==> {
                &&& final(out)@ == old(out)@
                &&& final(hw).trace() == old(hw).trace() + (seq![
                    Op::PinWrite(TMS, header_tms(header)),
                ] + wo_ops(self.half_period(), tdi@, nbits as nat))
            },
    {
        hw.pin_write(TMS, header & 0x40 != 0);
        if header & 0x80 != 0 {
            self.transfer_rw(hw, nbits, tdi, out);
            assert(hw.trace() =~= old(hw).trace() + (seq![Op::PinWrite(TMS, header_tms(header))]
                + rw_ops(self.half_period(), tdi@, bits_of(out@, nbits as nat))));
        } else {
            self.transfer_wo(hw, nbits, tdi);
            assert(hw.trace() =~= old(hw).trace() + (seq![Op::PinWrite(TMS, header_tms(header))]
                + wo_ops(self.half_period(), tdi@, nbits as nat)));
        }
    }

    /// Bit-bangs the sequences of `data` from index `pos` on, up to `nseqs`
    /// of them, storing what they capture in `rxbuf` from index `rxidx` on.
    /// Returns the index after the last captured byte. The rest of `rxbuf`
    /// stays as it was.
    #[verifier::rlimit(40)]
    fn bitbang_shifts<H: Board>(
        &self,
        hw: &mut H,
        data: &[u8],
        pos: usize,
        nseqs: u8,
        rxbuf: &mut [u8],
        rxidx: usize,
    ) -> (end: usize)
        requires
            1 <= pos <= data@.len(),
            rxidx + captured_len(shifts(data@.skip(pos as int), nseqs as nat)) <= old(rxbuf)@.len(),
        ensures
            final(rxbuf)@.len() == old(rxbuf)@.len(),
            rxidx <= end <= final(rxbuf)@.len(),
            end == rxidx + captured_len(shifts(data@.skip(pos as int), nseqs as nat)),
            final(rxbuf)@.take(rxidx as int) == old(rxbuf)@.take(rxidx as int),
            final(rxbuf)@.skip(end as int) == old(rxbuf)@.skip(end as int),
            padded(
                shifts(data@.skip(pos as int), nseqs as nat),
                final(rxbuf)@.subrange(rxidx as int, end as int),
            ),
            final(hw).trace() == old(hw).trace() + shifts_ops(
                self.half_period(),
                shifts(data@.skip(pos as int), nseqs as nat),
                final(rxbuf)@.subrange(rxidx as int, end as int),
            ),
    {
        let half = self.half_period_ticks;
        let ghost kept = rxidx;
        let ghost all = shifts(data@.skip(pos as int), nseqs as nat);
        let ghost base = hw.trace();
        let ghost mut done: Seq<Shift> = Seq::empty();
        let mut pos = pos;
        let mut nseqs = nseqs;
        let mut rxidx = rxidx;
        let total = data.len();
        let room = rxbuf.len();
        proof {
            assert(rxbuf@.subrange(kept as int, rxidx as int) =~= Seq::<u8>::empty());
            assert(base =~= base + shifts_ops(half, done, Seq::<u8>::empty()));
            assert(done + all =~= all);
        }
        while nseqs > 0
            invariant
                1 <= pos <= data@.len() <= usize::MAX,
                rxidx + captured_len(shifts(data@.skip(pos as int), nseqs as nat)) <= rxbuf@.len(),
                rxbuf@.len() == old(rxbuf)@.len() == room,
                half == self.half_period(),
                kept <= rxidx <= rxbuf@.len(),
                rxidx == kept + captured_len(done),
                all == done + shifts(data@.skip(pos as int), nseqs as nat),
                hw.trace() == base + shifts_ops(
                    half,
                    done,
                    rxbuf@.subrange(kept as int, rxidx as int),
                ),
                rxbuf@.take(kept as int) == old(rxbuf)@.take(kept as int),
                rxbuf@.skip(rxidx as int) == old(rxbuf)@.skip(rxidx as int),
                padded(done, rxbuf@.subrange(kept as int, rxidx as int)),
            ensures
                rxbuf@.len() == old(rxbuf)@.len(),
                kept <= rxidx <= rxbuf@.len(),
                rxidx == kept + captured_len(all),
                hw.trace() == base + shifts_ops(
                    half,
                    all,
                    rxbuf@.subrange(kept as int, rxidx as int),
                ),
                rxbuf@.take(kept as int) == old(rxbuf)@.take(kept as int),
                rxbuf@.skip(rxidx as int) == old(rxbuf)@.skip(rxidx as int),
                padded(all, rxbuf@.subrange(kept as int, rxidx as int)),
            decreases nseqs,
        {
            let ghost rest = data@.skip(pos as int);
            if pos >= data.len() {
                assert(done + Seq::<Shift>::empty() =~= done);
                break ;
            }
            let header = data[pos];
            assert(rest[0] == header);
            proof {
                lemma_header_bits(header);
            }
            let low = header & 0x3f;
            let nbits: usize = if low == 0 {
                64
            } else {
                low as usize
            };
            let nbytes: usize = (nbits + 7) / 8;
            if data.len() - pos - 1 < nbytes {
                assert(done + Seq::<Shift>::empty() =~= done);
                break ;
            }
            assert(heads_shift(rest, nseqs as nat));
            let tdi = vstd::slice::slice_subrange(data, pos + 1, pos + 1 + nbytes);
            let ghost this = Shift { header, tdi: tdi@ };
            proof {
                let tail = shifts(data@.skip(pos + 1 + nbytes), (nseqs - 1) as nat);
                assert(rest.subrange(1, 1 + nbytes) =~= tdi@);
                assert(rest.skip(1 + nbytes) =~= data@.skip(pos + 1 + nbytes));
                lemma_captured_concat(seq![this], tail);
                lemma_captured_one(this);
                assert(shifts(rest, nseqs as nat) == seq![this] + tail);
                assert(rxidx + (if header_captures(header) {
                    nbytes as nat
                } else {
                    0nat
                }) + captured_len(tail) <= rxbuf@.len());
            }
            let ghost before = hw.trace();
            let ghost held = rxbuf@;
            let ghost prev = rxbuf@.subrange(kept as int, rxidx as int);
            let out = tail_mut(rxbuf, rxidx);
            self.shift_one(hw, header, nbits, tdi, out);
            let ghost got = out@;
            let captured: usize = if header & 0x80 != 0 {
                nbytes
            } else {
                0
            };
            proof {
                let rx = rxbuf@.subrange(kept as int, rxidx + captured);
                let set = seq![Op::PinWrite(TMS, header_tms(header))];
                let head = shifts_ops(half, done, prev);
                assert(rxbuf@.skip(rxidx as int) =~= got);
                assert(rxbuf@.take(kept as int) =~= held.take(kept as int));
                assert(rxbuf@.skip(rxidx + captured) =~= got.skip(captured as int));
                assert(held.skip(rxidx + captured) =~= held.skip(rxidx as int).skip(
                    captured as int,
                ));
                if header_captures(header) {
                    let step = set + rw_ops(half, tdi@, bits_of(got, nbits as nat));
                    assert(hw.trace() == before + step);
                    assert(rx.take(rx.len() - nbytes) =~= prev);
                    assert(rx.skip(rx.len() - nbytes) =~= got.take(nbytes as int));
                    assert(bits_of(rx.skip(rx.len() - nbytes), nbits as nat) =~= bits_of(
                        got,
                        nbits as nat,
                    ));
                    assert forall|i: int| nbits <= i < 8 * nbytes implies !#[trigger] bit_at(
                        rx.skip(rx.len() - nbytes),
                        i,
                    ) by {
                        assert(got.take(nbytes as int)[i / 8] == got[i / 8]);
                        assert(!bit_at(got, i));
                    }
                    lemma_push_capturing(half, done, this, rx);
                    assert(base + head + step =~= base + (head + step));
                } else {
                    let step = set + wo_ops(half, tdi@, nbits as nat);
                    assert(hw.trace() == before + step);
                    assert(rxbuf@ =~= held);
                    assert(rx =~= prev);
                    lemma_push_silent(half, done, this, rx);
                    assert(base + head + step =~= base + (head + step));
                }
                assert(rest.subrange(1, 1 + nbytes) =~= tdi@);
                assert(rest.skip(1 + nbytes) =~= data@.skip(pos + 1 + nbytes));
                let tail = shifts(data@.skip(pos + 1 + nbytes), (nseqs - 1) as nat);
                assert(done + (seq![this] + tail) =~= done.push(this) + tail);
                done = done.push(this);
            }
            rxidx += captured;
            pos += 1 + nbytes;
            nseqs -= 1;
        }
        rxidx
    }

    /// Runs the sequences of a request: its first byte is their number, and
    /// each sequence is a header byte followed by its TDI bytes. Captured
    /// TDO bytes go to the start of `rxbuf`, one for each TDI byte of a
    /// capturing sequence; their number is returned.
    ///
    /// A request that names no sequence, or that does not hold every
    /// sequence that it names in full, does nothing and captures nothing.
    /// After the captured bytes `rxbuf` holds what came in during an
    /// exchange through the SPI peripheral, where that reaches further, and
    /// beyond that it stays as it was.
    #[verifier::rlimit(40)]
    pub fn sequences<H: Board>(&self, hw: &mut H, data: &[u8], rxbuf: &mut [u8]) -> (written: usize)
        requires
            self.room_needed(data@) <= old(rxbuf)@.len(),
        ensures
            final(rxbuf)@.len() == old(rxbuf)@.len(),
            written == self.captured(data@),
            written <= old(rxbuf)@.len(),
            final(rxbuf)@.skip(self.room_needed(data@) as int) == old(rxbuf)@.skip(
                self.room_needed(data@) as int,
            ),
            !asks_for_shifts(data@) ==> final(hw).trace() == old(hw).trace() && final(rxbuf)@
                == old(rxbuf)@,
            asks_for_shifts(data@) ==> exists|bulk_rx: Seq<u8>| #[trigger]
                self.sequences_stored(
                    data@,
                    old(hw).trace(),
                    final(hw).trace(),
                    final(rxbuf)@,
                    written as int,
                    bulk_rx,
                ),
    {
        if !is_whole(data) {
            return 0;
        }
        let mut nseqs: u8 = data[0];
        let ghost n0 = nseqs as nat;
        let mut pos: usize = 1;
        let mut rxidx: usize = 0;
        hw.delay_ticks(self.half_period_ticks);

        let kind: u8 = data[1] & 0xC0;
        let ghost first = data@[1];
        let ghost mut bulk_rx: Seq<u8> = Seq::empty();
        proof {
            assert(data@.skip(1)[0] == first);
            assert(((first & 0xC0) & 0x80 != 0) == (first & 0x80 != 0)) by (bit_vector);
            assert(((first & 0xC0) & 0x40 != 0) == (first & 0x40 != 0)) by (bit_vector);
        }
        if !self.use_bitbang {
            let (buffer, after, left) = Self::gather_run(data, nseqs, kind);
            pos = after;
            nseqs = left;
            if buffer.len() > 0 {
                self.exchange_run(hw, kind, buffer.as_slice(), rxbuf);
                proof {
                    bulk_rx = rxbuf@.take(buffer@.len() as int);
                }
                if kind & 0x80 != 0 {
                    rxidx += buffer.len();
                }
            }
        }
        let ghost kept = rxidx;
        let ghost mid = hw.trace();
        let ghost held = rxbuf@;
        let end = self.bitbang_shifts(hw, data, pos, nseqs, rxbuf, rxidx);
        proof {
            let out = rxbuf@.take(end as int);
            let room = self.room_needed(data@) as int;
            assert(rxbuf@.skip(room) =~= old(rxbuf)@.skip(room)) by {
                let was = old(rxbuf)@;
                assert forall|i: int| room <= i < rxbuf@.len() implies rxbuf@[i] == was[i] by {
                    assert(rxbuf@[i] == rxbuf@.skip(end as int)[i - end]);
                    assert(held[i] == held.skip(end as int)[i - end]);
                    assert(held[i] == held.skip(bulk_rx.len() as int)[i - bulk_rx.len()]);
                    assert(was[i] == was.skip(bulk_rx.len() as int)[i - bulk_rx.len()]);
                }
            }
            assert(out.skip(kept as int) =~= rxbuf@.subrange(kept as int, end as int));
            if header_captures(first) {
                assert(bulk_rx =~= out.take(bulk_rx.len() as int));
            }
            assert(hw.trace() =~= old(hw).trace() + self.sequences_ops(data@, out, bulk_rx));
            assert(self.sequences_done(data@, old(hw).trace(), hw.trace(), out, bulk_rx));
            assert forall|i: int| end <= i < bulk_rx.len() implies #[trigger] rxbuf@[i]
                == bulk_rx[i] by {
                assert(rxbuf@[i] == rxbuf@.skip(end as int)[i - end]);
                assert(held[i] == held.skip(end as int)[i - end]);
            }
            assert(self.sequences_stored(
                data@,
                old(hw).trace(),
                hw.trace(),
                rxbuf@,
                end as int,
                bulk_rx,
            ));
        }
        end
    }
}

/// What two runs of sequences capture, one after the other, is what each
/// captures.
pub proof fn lemma_captured_concat(first: Seq<Shift>, second: Seq<Shift>)
    ensures
        captured_len(first + second) == captured_len(first) + captured_len(second),
    decreases second.len(),
{
    if second.len() == 0 {
        assert(first + second =~= first);
    } else {
        assert((first + second).drop_last() =~= first + second.drop_last());
        assert((first + second).last() == second.last());
        lemma_captured_concat(first, second.drop_last());
    }
}

/// What one sequence captures: its TDI bytes, if it captures.
proof fn lemma_captured_one(this: Shift)
    ensures
        captured_len(seq![this]) == (if header_captures(this.header) {
            this.tdi.len()
        } else {
            0
        }),
{
    let one = seq![this];
    assert(one.drop_last() =~= Seq::<Shift>::empty());
    assert(captured_len(Seq::<Shift>::empty()) == 0);
    assert(one.last() == this);
}

/// The sequences of a request take up a byte each for their headers beside
/// their TDI bytes, and capture no more than their TDI bytes.
proof fn lemma_shifts_within(data: Seq<u8>, nseqs: nat)
    ensures
        captured_len(shifts(data, nseqs)) + shifts(data, nseqs).len() <= data.len(),
    decreases nseqs,
{
    if heads_shift(data, nseqs) {
        let nbytes = header_bytes(data[0]);
        let this = Shift { header: data[0], tdi: data.subrange(1, 1 + nbytes as int) };
        let tail = shifts(data.skip(1 + nbytes as int), (nseqs - 1) as nat);
        lemma_shifts_within(data.skip(1 + nbytes as int), (nseqs - 1) as nat);
        lemma_captured_concat(seq![this], tail);
        lemma_captured_one(this);
    }
}

/// The run for the SPI peripheral takes up a byte for each header beside
/// its TDI bytes.
proof fn lemma_run_within(data: Seq<u8>, nseqs: nat, kind: u8)
    ensures
        run_tdi(data, nseqs, kind).len() + run_count(data, nseqs, kind) == run_consumed(
            data,
            nseqs,
            kind,
        ),
        run_consumed(data, nseqs, kind) <= data.len(),
        run_count(data, nseqs, kind) <= nseqs,
        run_count(data, nseqs, kind) == 0 ==> run_tdi(data, nseqs, kind).len() == 0,
    decreases nseqs,
{
    if joins_run(data, nseqs, kind) {
        lemma_run_within(data.skip(1 + header_bytes(data[0]) as int), (nseqs - 1) as nat, kind);
    }
}

/// A capture buffer that is two bytes shorter than the request has room for
/// all that the request needs.
pub proof fn lemma_room_within_request(jtag: JTAG, data: Seq<u8>)
    ensures
        asks_for_shifts(data) ==> jtag.room_needed(data) + 2 <= data.len(),
        !asks_for_shifts(data) ==> jtag.room_needed(data) == 0,
{
    if asks_for_shifts(data) {
        let body = data.skip(1);
        let n = data[0] as nat;
        if jtag.bitbang() {
            lemma_shifts_within(body, n);
        } else {
            let kind = data[1] & 0xC0;
            lemma_run_within(body, n, kind);
            let consumed = run_consumed(body, n, kind);
            let count = run_count(body, n, kind);
            lemma_shifts_within(data.skip(1 + consumed as int), (n - count) as nat);
        }
    }
}

/// Bit-banging one more sequence, a capturing one, after those of `done`.
proof fn lemma_push_capturing(half: u32, done: Seq<Shift>, this: Shift, rx: Seq<u8>)
    requires
        header_captures(this.header),
    ensures
        shifts_ops(half, done.push(this), rx) == shifts_ops(
            half,
            done,
            rx.take(rx.len() - this.tdi.len()),
        ) + (seq![Op::PinWrite(TMS, header_tms(this.header))] + rw_ops(
            half,
            this.tdi,
            bits_of(rx.skip(rx.len() - this.tdi.len()), header_bits(this.header)),
        )),
        captured_len(done.push(this)) == captured_len(done) + this.tdi.len(),
        padded(done.push(this), rx) == (padded(done, rx.take(rx.len() - this.tdi.len()))
            && forall|i: int|
            header_bits(this.header) <= i < 8 * this.tdi.len() ==> !#[trigger] bit_at(
                rx.skip(rx.len() - this.tdi.len()),
                i,
            )),
{
    let list = done.push(this);
    assert(list.drop_last() =~= done);
    assert(list.last() == this);
    let head = shifts_ops(half, done, if header_captures(this.header) {
        rx.take(rx.len() - this.tdi.len())
    } else {
        rx
    });
    let set = seq![Op::PinWrite(TMS, header_tms(this.header))];
    let shift = if header_captures(this.header) {
        rw_ops(
            half,
            this.tdi,
            bits_of(rx.skip(rx.len() - this.tdi.len()), header_bits(this.header)),
        )
    } else {
        wo_ops(half, this.tdi, header_bits(this.header))
    };
    assert(head + set + shift =~= head + (set + shift));
}

/// Bit-banging one more sequence, one that does not capture, after those of
/// `done`.
proof fn lemma_push_silent(half: u32, done: Seq<Shift>, this: Shift, rx: Seq<u8>)
    requires
        !header_captures(this.header),
    ensures
        shifts_ops(half, done.push(this), rx) == shifts_ops(half, done, rx) + (seq![
            Op::PinWrite(TMS, header_tms(this.header)),
        ] + wo_ops(half, this.tdi, header_bits(this.header))),
        captured_len(done.push(this)) == captured_len(done),
        padded(done.push(this), rx) == padded(done, rx),
{
    let list = done.push(this);
    assert(list.drop_last() =~= done);
    assert(list.last() == this);
    let head = shifts_ops(half, done, if header_captures(this.header) {
        rx.take(rx.len() - this.tdi.len())
    } else {
        rx
    });
    let set = seq![Op::PinWrite(TMS, header_tms(this.header))];
    let shift = if header_captures(this.header) {
        rw_ops(
            half,
            this.tdi,
            bits_of(rx.skip(rx.len() - this.tdi.len()), header_bits(this.header)),
        )
    } else {
        wo_ops(half, this.tdi, header_bits(this.header))
    };
    assert(head + set + shift =~= head + (set + shift));
}

proof fn lemma_whole_bytes(header: u8)
    by (bit_vector)
    ensures
        header & 0x3f == 8 ==> (header & 0x3f) & 7 == 0,
        header & 0x3f == 16 ==> (header & 0x3f) & 7 == 0,
{
}

/// Two sequences of 8 and of 16 bits that open a request, with the same
/// capture and TMS bits, go out through the SPI peripheral in one exchange,
/// where the engine does not bit-bang: the exchange begins with the TDI
/// byte of the first and the two TDI bytes of the second.
pub proof fn lemma_like_sequences_share_one_exchange(jtag: JTAG, data: Seq<u8>)
    requires
        !jtag.bitbang(),
        data.len() >= 6,
        data[0] >= 2,
        data[1] & 0x3f == 8,
        data[3] & 0x3f == 16,
        data[1] & 0xC0 == data[3] & 0xC0,
    ensures
        jtag.bulk_tdi(data).len() >= 3,
        jtag.bulk_tdi(data).take(3) == seq![data[2], data[4], data[5]],
        run_count(data.skip(1), data[0] as nat, data[1] & 0xC0) >= 2,
{
    let body = data.skip(1);
    let kind = data[1] & 0xC0;
    let n = data[0] as nat;
    let rest = body.skip(2);
    lemma_whole_bytes(data[1]);
    lemma_whole_bytes(data[3]);
    assert(body[0] == data[1]);
    assert(rest[0] == data[3]);
    assert(header_bytes(data[1]) == 1);
    assert(header_bytes(data[3]) == 2);
    assert(joins_run(body, n, kind));
    assert(joins_run(rest, (n - 1) as nat, kind));
    let tail = run_tdi(rest.skip(3), (n - 2) as nat, kind);
    assert(run_tdi(rest, (n - 1) as nat, kind) == rest.subrange(1, 3) + tail);
    assert(run_tdi(body, n, kind) == body.subrange(1, 2) + (rest.subrange(1, 3) + tail));
    assert(run_count(rest, (n - 1) as nat, kind) >= 1);
    assert((body.subrange(1, 2) + (rest.subrange(1, 3) + tail)).take(3) =~= seq![
        data[2],
        data[4],
        data[5],
    ]);
}

} // verus!
