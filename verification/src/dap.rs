//! The CMSIS-DAP command processor: one request packet in, one response
//! packet out, with the SWD and JTAG engines doing what the request asks.

use vstd::prelude::*;
use vstd::seq_lib::lemma_concat_associative;
use crate::bits::{le16, le16_bytes, le32, le32_bytes};
use crate::board::{ring_len, Board, Line, Op, PinMode, Port};
use crate::slices::head_mut;
use crate::spi::prescaler_for;
use crate::swd::{
    access_error, access_ops, follows_policy, performed, read_result, tx_sequence_ops,
    write_result, APnDP, Access, Attempt, Error, RnW,
};
use crate::jtag::{asks_for_shifts, tms_sequence_ops};
use crate::uart::ring_available;
use crate::gpio::{high_impedance_ops, jtag_mode_ops, swd_mode_ops, Pins};
use crate::jtag::JTAG;
use crate::rcc::Clocks;
use crate::slices::tail_mut;
use crate::swd::SWD;
use crate::uart::{copy_into, ring_read_between, ring_was_measured, ring_was_read, UART};

verus! {

/// The protocol version a request came in by. It decides the packet size
/// that the probe reports.
#[derive(Clone, Copy, PartialEq, Eq, Structural, Debug)]
pub enum DAPVersion {
    V1,
    V2,
}

/// The commands of the protocol that the probe knows, and one that stands
/// for all the others.
#[allow(non_camel_case_types)]
#[derive(Clone, Copy, PartialEq, Eq, Structural, Debug)]
pub enum Command {
    DAP_Info,
    DAP_HostStatus,
    DAP_Connect,
    DAP_Disconnect,
    DAP_WriteABORT,
    DAP_Delay,
    DAP_ResetTarget,
    DAP_SWJ_Pins,
    DAP_SWJ_Clock,
    DAP_SWJ_Sequence,
    DAP_SWD_Configure,
    DAP_SWO_Transport,
    DAP_SWO_Mode,
    DAP_SWO_Baudrate,
    DAP_SWO_Control,
    DAP_SWO_Status,
    DAP_SWO_ExtendedStatus,
    DAP_SWO_Data,
    DAP_JTAG_Sequence,
    DAP_TransferConfigure,
    DAP_Transfer,
    DAP_TransferBlock,
    DAP_TransferAbort,
    Unimplemented,
}

impl Command {
    /// The command that an opcode stands for. Every opcode that the probe
    /// does not know stands for `Unimplemented`.
    pub open spec fn of(opcode: u8) -> Command {
        if opcode == 0x00 {
            Command::DAP_Info
        } else if opcode == 0x01 {
            Command::DAP_HostStatus
        } else if opcode == 0x02 {
            Command::DAP_Connect
        } else if opcode == 0x03 {
            Command::DAP_Disconnect
        } else if opcode == 0x08 {
            Command::DAP_WriteABORT
        } else if opcode == 0x09 {
            Command::DAP_Delay
        } else if opcode == 0x0A {
            Command::DAP_ResetTarget
        } else if opcode == 0x10 {
            Command::DAP_SWJ_Pins
        } else if opcode == 0x11 {
            Command::DAP_SWJ_Clock
        } else if opcode == 0x12 {
            Command::DAP_SWJ_Sequence
        } else if opcode == 0x13 {
            Command::DAP_SWD_Configure
        } else if opcode == 0x17 {
            Command::DAP_SWO_Transport
        } else if opcode == 0x18 {
            Command::DAP_SWO_Mode
        } else if opcode == 0x19 {
            Command::DAP_SWO_Baudrate
        } else if opcode == 0x1A {
            Command::DAP_SWO_Control
        } else if opcode == 0x1B {
            Command::DAP_SWO_Status
        } else if opcode == 0x1E {
            Command::DAP_SWO_ExtendedStatus
        } else if opcode == 0x1C {
            Command::DAP_SWO_Data
        } else if opcode == 0x14 {
            Command::DAP_JTAG_Sequence
        } else if opcode == 0x04 {
            Command::DAP_TransferConfigure
        } else if opcode == 0x05 {
            Command::DAP_Transfer
        } else if opcode == 0x06 {
            Command::DAP_TransferBlock
        } else if opcode == 0x07 {
            Command::DAP_TransferAbort
        } else {
            Command::Unimplemented
        }
    }

    /// The opcode that a response to the command opens with.
    pub open spec fn spec_code(self) -> u8 {
        match self {
            Command::DAP_Info => 0x00,
            Command::DAP_HostStatus => 0x01,
            Command::DAP_Connect => 0x02,
            Command::DAP_Disconnect => 0x03,
            Command::DAP_WriteABORT => 0x08,
            Command::DAP_Delay => 0x09,
            Command::DAP_ResetTarget => 0x0A,
            Command::DAP_SWJ_Pins => 0x10,
            Command::DAP_SWJ_Clock => 0x11,
            Command::DAP_SWJ_Sequence => 0x12,
            Command::DAP_SWD_Configure => 0x13,
            Command::DAP_SWO_Transport => 0x17,
            Command::DAP_SWO_Mode => 0x18,
            Command::DAP_SWO_Baudrate => 0x19,
            Command::DAP_SWO_Control => 0x1A,
            Command::DAP_SWO_Status => 0x1B,
            Command::DAP_SWO_ExtendedStatus => 0x1E,
            Command::DAP_SWO_Data => 0x1C,
            Command::DAP_JTAG_Sequence => 0x14,
            Command::DAP_TransferConfigure => 0x04,
            Command::DAP_Transfer => 0x05,
            Command::DAP_TransferBlock => 0x06,
            Command::DAP_TransferAbort => 0x07,
            Command::Unimplemented => 0xFF,
        }
    }

    /// The opcode that a response to the command opens with.
    pub fn code(self) -> (opcode: u8)
        ensures
            opcode == self.spec_code(),
    {
        match self {
            Command::DAP_Info => 0x00,
            Command::DAP_HostStatus => 0x01,
            Command::DAP_Connect => 0x02,
            Command::DAP_Disconnect => 0x03,
            Command::DAP_WriteABORT => 0x08,
            Command::DAP_Delay => 0x09,
            Command::DAP_ResetTarget => 0x0A,
            Command::DAP_SWJ_Pins => 0x10,
            Command::DAP_SWJ_Clock => 0x11,
            Command::DAP_SWJ_Sequence => 0x12,
            Command::DAP_SWD_Configure => 0x13,
            Command::DAP_SWO_Transport => 0x17,
            Command::DAP_SWO_Mode => 0x18,
            Command::DAP_SWO_Baudrate => 0x19,
            Command::DAP_SWO_Control => 0x1A,
            Command::DAP_SWO_Status => 0x1B,
            Command::DAP_SWO_ExtendedStatus => 0x1E,
            Command::DAP_SWO_Data => 0x1C,
            Command::DAP_JTAG_Sequence => 0x14,
            Command::DAP_TransferConfigure => 0x04,
            Command::DAP_Transfer => 0x05,
            Command::DAP_TransferBlock => 0x06,
            Command::DAP_TransferAbort => 0x07,
            Command::Unimplemented => 0xFF,
        }
    }

    /// The command that an opcode stands for.
    pub fn from_opcode(opcode: u8) -> (command: Command)
        ensures
            command == Command::of(opcode),
    {
        if opcode == 0x00 {
            Command::DAP_Info
        } else if opcode == 0x01 {
            Command::DAP_HostStatus
        } else if opcode == 0x02 {
            Command::DAP_Connect
        } else if opcode == 0x03 {
            Command::DAP_Disconnect
        } else if opcode == 0x08 {
            Command::DAP_WriteABORT
        } else if opcode == 0x09 {
            Command::DAP_Delay
        } else if opcode == 0x0A {
            Command::DAP_ResetTarget
        } else if opcode == 0x10 {
            Command::DAP_SWJ_Pins
        } else if opcode == 0x11 {
            Command::DAP_SWJ_Clock
        } else if opcode == 0x12 {
            Command::DAP_SWJ_Sequence
        } else if opcode == 0x13 {
            Command::DAP_SWD_Configure
        } else if opcode == 0x17 {
            Command::DAP_SWO_Transport
        } else if opcode == 0x18 {
            Command::DAP_SWO_Mode
        } else if opcode == 0x19 {
            Command::DAP_SWO_Baudrate
        } else if opcode == 0x1A {
            Command::DAP_SWO_Control
        } else if opcode == 0x1B {
            Command::DAP_SWO_Status
        } else if opcode == 0x1E {
            Command::DAP_SWO_ExtendedStatus
        } else if opcode == 0x1C {
            Command::DAP_SWO_Data
        } else if opcode == 0x14 {
            Command::DAP_JTAG_Sequence
        } else if opcode == 0x04 {
            Command::DAP_TransferConfigure
        } else if opcode == 0x05 {
            Command::DAP_Transfer
        } else if opcode == 0x06 {
            Command::DAP_TransferBlock
        } else if opcode == 0x07 {
            Command::DAP_TransferAbort
        } else {
            Command::Unimplemented
        }
    }
}

/// Every command that the probe knows is answered under its own opcode.
pub proof fn lemma_known_opcode_is_echoed(opcode: u8)
    requires
        Command::of(opcode) != Command::Unimplemented,
    ensures
        Command::of(opcode).spec_code() == opcode,
{
}

/// The status byte that says a command was carried out.
pub const DAP_OK: u8 = 0x00;

/// The status byte that says a command failed.
pub const DAP_ERROR: u8 = 0xFF;

/// A request packet being read: the command, and the bytes of the payload
/// that have not been read yet.
pub struct Request<'a> {
    pub command: Command,
    pub data: &'a [u8],
}

impl<'a> Request<'a> {
    /// Opens a request packet: its first byte is the opcode, the rest the
    /// payload. There is no request in an empty packet.
    pub fn from_report(report: &'a [u8]) -> (r: Option<Self>)
        ensures
            report@.len() == 0 <==> r is None,
            r matches Some(req) ==> req.command == Command::of(report@[0]) && req.data@
                == report@.skip(1),
    {
        if report.len() == 0 {
            return None;
        }
        let command = Command::from_opcode(report[0]);
        let data = vstd::slice::slice_subrange(report, 1, report.len());
        Some(Request { command, data })
    }

    /// Reads the next byte of the payload.
    pub fn next_u8(&mut self) -> (value: u8)
        requires
            old(self).data@.len() >= 1,
        ensures
            value == old(self).data@[0],
            final(self).data@ == old(self).data@.skip(1),
            final(self).command == old(self).command,
    {
        let value = self.data[0];
        self.data = vstd::slice::slice_subrange(self.data, 1, self.data.len());
        value
    }

    /// Reads the next two bytes of the payload as a little-endian number.
    pub fn next_u16(&mut self) -> (value: u16)
        requires
            old(self).data@.len() >= 2,
        ensures
            value == le16(old(self).data@[0], old(self).data@[1]),
            final(self).data@ == old(self).data@.skip(2),
            final(self).command == old(self).command,
    {
        let value = (self.data[0] as u16) + 256 * (self.data[1] as u16);
        self.data = vstd::slice::slice_subrange(self.data, 2, self.data.len());
        value
    }

    /// Reads the next four bytes of the payload as a little-endian number.
    pub fn next_u32(&mut self) -> (value: u32)
        requires
            old(self).data@.len() >= 4,
        ensures
            value == le32(
                old(self).data@[0],
                old(self).data@[1],
                old(self).data@[2],
                old(self).data@[3],
            ),
            final(self).data@ == old(self).data@.skip(4),
            final(self).command == old(self).command,
    {
        let value = (self.data[0] as u32) + 256 * (self.data[1] as u32) + 65536 * (
        self.data[2] as u32) + 16777216 * (self.data[3] as u32);
        self.data = vstd::slice::slice_subrange(self.data, 4, self.data.len());
        value
    }

    /// The bytes of the payload that have not been read.
    pub fn rest(self) -> (rest: &'a [u8])
        ensures
            rest@ == self.data@,
    {
        self.data
    }
}

/// `buf` with `bytes` written over it from index `at` on.
pub open spec fn spliced(buf: Seq<u8>, at: int, bytes: Seq<u8>) -> Seq<u8> {
    buf.take(at) + bytes + buf.skip(at + bytes.len())
}

/// A response packet being written: the buffer, and the index at which the
/// next byte goes. The response so far is what lies before that index.
pub struct ResponseWriter<'a> {
    pub buf: &'a mut [u8],
    pub idx: usize,
}

impl<'a> ResponseWriter<'a> {
    /// Starts a response in `buf` with the opcode of `command`.
    pub fn new(command: Command, buf: &'a mut [u8]) -> (w: Self)
        requires
            old(buf)@.len() >= 1,
        ensures
            w.idx == 1,
            w.buf@ == old(buf)@.update(0, command.spec_code()),
            final(buf)@ == final(w.buf)@,
    {
        buf[0] = command.code();
        ResponseWriter { buf, idx: 1 }
    }

    /// Appends a byte.
    pub fn write_u8(&mut self, value: u8)
        requires
            old(self).idx < old(self).buf@.len(),
        ensures
            final(self).idx == old(self).idx + 1,
            final(self).buf@ == old(self).buf@.update(old(self).idx as int, value),
            final(final(self).buf)@ == final(old(self).buf)@,
    {
        self.buf[self.idx] = value;
        self.idx += 1;
    }

    /// Appends a 16-bit number, low byte first.
    pub fn write_u16(&mut self, value: u16)
        requires
            old(self).idx + 2 <= old(self).buf@.len(),
        ensures
            final(self).idx == old(self).idx + 2,
            final(self).buf@ == spliced(old(self).buf@, old(self).idx as int, le16_bytes(value)),
            final(final(self).buf)@ == final(old(self).buf)@,
    {
        self.buf[self.idx] = (value % 256) as u8;
        self.buf[self.idx + 1] = (value / 256) as u8;
        assert(self.buf@ =~= spliced(old(self).buf@, old(self).idx as int, le16_bytes(value)));
        self.idx += 2;
    }

    /// Appends a 32-bit number, low byte first.
    pub fn write_u32(&mut self, value: u32)
        requires
            old(self).idx + 4 <= old(self).buf@.len(),
        ensures
            final(self).idx == old(self).idx + 4,
            final(self).buf@ == spliced(old(self).buf@, old(self).idx as int, le32_bytes(value)),
            final(final(self).buf)@ == final(old(self).buf)@,
    {
        self.buf[self.idx] = (value % 256) as u8;
        self.buf[self.idx + 1] = ((value / 256) % 256) as u8;
        self.buf[self.idx + 2] = ((value / 65536) % 256) as u8;
        self.buf[self.idx + 3] = (value / 16777216) as u8;
        assert(self.buf@ =~= spliced(old(self).buf@, old(self).idx as int, le32_bytes(value)));
        self.idx += 4;
    }

    /// Appends the bytes of `data`.
    pub fn write_slice(&mut self, data: &[u8])
        requires
            old(self).idx + data@.len() <= old(self).buf@.len(),
        ensures
            final(self).idx == old(self).idx + data@.len(),
            final(self).buf@ == spliced(old(self).buf@, old(self).idx as int, data@),
            final(final(self).buf)@ == final(old(self).buf)@,
    {
        let n = data.len();
        let total = self.buf.len();
        copy_into(self.buf, self.idx, data, 0, n);
        assert(data@.subrange(0, n as int) =~= data@);
        self.idx += n;
    }

    /// Appends the status byte for success.
    pub fn write_ok(&mut self)
        requires
            old(self).idx < old(self).buf@.len(),
        ensures
            final(self).idx == old(self).idx + 1,
            final(self).buf@ == old(self).buf@.update(old(self).idx as int, DAP_OK),
            final(final(self).buf)@ == final(old(self).buf)@,
    {
        self.write_u8(DAP_OK);
    }

    /// Appends the status byte for failure.
    pub fn write_err(&mut self)
        requires
            old(self).idx < old(self).buf@.len(),
        ensures
            final(self).idx == old(self).idx + 1,
            final(self).buf@ == old(self).buf@.update(old(self).idx as int, DAP_ERROR),
            final(final(self).buf)@ == final(old(self).buf)@,
    {
        self.write_u8(DAP_ERROR);
    }

    /// Writes a byte at index `idx` of the packet.
    pub fn write_u8_at(&mut self, idx: usize, value: u8)
        requires
            idx < old(self).buf@.len(),
        ensures
            final(self).idx == old(self).idx,
            final(self).buf@ == old(self).buf@.update(idx as int, value),
            final(final(self).buf)@ == final(old(self).buf)@,
    {
        self.buf[idx] = value;
    }

    /// Writes a 16-bit number at index `idx` of the packet, low byte first.
    pub fn write_u16_at(&mut self, idx: usize, value: u16)
        requires
            idx + 2 <= old(self).buf@.len(),
        ensures
            final(self).idx == old(self).idx,
            final(self).buf@ == spliced(old(self).buf@, idx as int, le16_bytes(value)),
            final(final(self).buf)@ == final(old(self).buf)@,
    {
        self.buf[idx] = (value % 256) as u8;
        self.buf[idx + 1] = (value / 256) as u8;
        assert(self.buf@ =~= spliced(old(self).buf@, idx as int, le16_bytes(value)));
    }

    /// The byte at index `idx` of the packet, to be written in place.
    pub fn mut_at(&mut self, idx: usize) -> (byte: &mut u8)
        requires
            idx < old(self).buf@.len(),
        ensures
            *byte == old(self).buf@[idx as int],
            final(self).idx == old(self).idx,
            final(self).buf@ == old(self).buf@.update(idx as int, *final(byte)),
            final(final(self).buf)@ == final(old(self).buf)@,
    {
        &mut self.buf[idx]
    }

    /// The byte at index `idx` of the packet.
    pub fn read_u8_at(&self, idx: usize) -> (value: u8)
        requires
            idx < self.buf@.len(),
        ensures
            value == old(self.buf)@[idx as int],
    {
        self.buf[idx]
    }

    /// The part of the packet that the response has not reached, to be
    /// written in place.
    pub fn remaining(&mut self) -> (rest: &mut [u8])
        requires
            old(self).idx <= old(self).buf@.len(),
        ensures
            rest@ == old(self).buf@.skip(old(self).idx as int),
            final(rest)@.len() == rest@.len(),
            final(self).idx == old(self).idx,
            final(self).buf@ == old(self).buf@.take(old(self).idx as int) + final(rest)@,
            final(final(self).buf)@ == final(old(self).buf)@,
    {
        tail_mut(self.buf, self.idx)
    }

    /// Takes the next `n` bytes of the packet, as they are, into the
    /// response.
    pub fn skip(&mut self, n: usize)
        requires
            old(self).idx + n <= usize::MAX,
        ensures
            final(self).idx == old(self).idx + n,
            final(self).buf@ == old(self).buf@,
            final(final(self).buf)@ == final(old(self).buf)@,
    {
        self.idx += n;
    }
}

/// The wire protocol that the probe is connected by.
#[derive(Clone, Copy, PartialEq, Eq, Structural, Debug)]
pub enum DAPMode {
    SWD,
    JTAG,
}

/// The command processor.
pub struct DAP {
    /// The SWD engine.
    pub swd: SWD,
    /// The JTAG engine.
    pub jtag: JTAG,
    /// The receiver of the target's trace output.
    pub uart: UART,
    /// The wire protocol the probe is connected by, if it is connected.
    pub mode: Option<DAPMode>,
    /// Whether trace output goes to the host by its own endpoint.
    pub swo_streaming: bool,
    /// How many times a read is repeated until its value matches.
    pub match_retries: usize,
    /// What the probe reports as its firmware version.
    pub firmware_version: Vec<u8>,
}

/// The trace receiver was asked whether it is enabled between the two
/// traces, and this was the answer.
pub open spec fn asked_whether_active(before: Seq<Op>, after: Seq<Op>, active: bool) -> bool {
    after == before.push(Op::UartActive(Port::Swo, active))
}

/// Two packets that are alike from index `from` on are alike from any later
/// index on.
proof fn lemma_alike_later(a: Seq<u8>, b: Seq<u8>, from: int, later: int)
    requires
        a.len() == b.len(),
        0 <= from <= later <= a.len(),
        a.skip(from) == b.skip(from),
    ensures
        a.skip(later) == b.skip(later),
{
    assert(a.skip(later) =~= a.skip(from).skip(later - from));
    assert(b.skip(later) =~= b.skip(from).skip(later - from));
}

/// Reading `len` bytes into the first `limit` bytes of the packet after its
/// first four leaves the packet beyond them as it was: `opened` is the
/// packet before and `after` the packet after, `free` its part from index 4
/// on before, `room` and `filled` the part read into, before and after.
proof fn lemma_read_into_packet(
    opened: Seq<u8>,
    after: Seq<u8>,
    free: Seq<u8>,
    room: Seq<u8>,
    filled: Seq<u8>,
    limit: int,
    len: int,
)
    requires
        opened.len() >= 4,
        free == opened.skip(4),
        0 <= len <= limit <= free.len(),
        room == free.take(limit),
        filled.len() == room.len(),
        filled.skip(len) == room.skip(len),
        after == opened.take(4) + (filled + free.skip(limit)),
    ensures
        after.len() == opened.len(),
        after.take(4) == opened.take(4),
        after.subrange(4, 4 + len) == filled.take(len),
        after.skip(4 + len) == opened.skip(4 + len),
{
    assert(after.take(4) =~= opened.take(4));
    assert(after.subrange(4, 4 + len) =~= filled.take(len));
    assert forall|i: int| 4 + len <= i < after.len() implies after[i] == opened[i] by {
        if i - 4 < limit {
            assert(filled[i - 4] == filled.skip(len)[i - 4 - len]);
            assert(room[i - 4] == room.skip(len)[i - 4 - len]);
        }
    }
    assert(after.skip(4 + len) =~= opened.skip(4 + len));
}

/// The handler put `out` after the opcode, and left the opcode and the
/// packet's length as they were.
pub open spec fn answer_is(before: Seq<u8>, after: Seq<u8>, idx: usize, out: Seq<u8>) -> bool {
    &&& idx == 1 + out.len()
    &&& idx <= after.len()
    &&& after.len() == before.len()
    &&& after[0] == before[0]
    &&& after.subrange(1, idx as int) == out
}

/// The handler answered with `out` after the opcode, and left the opcode,
/// the packet's length and the packet after the answer as they were.
pub open spec fn answered(before: Seq<u8>, after: Seq<u8>, idx: usize, out: Seq<u8>) -> bool {
    &&& answer_is(before, after, idx, out)
    &&& after.skip(idx as int) == before.skip(idx as int)
}

/// What `DAP_Info` answers for an identifier: a length byte and as many
/// bytes. Vendor, product, serial number and target names are left empty,
/// for the host to take from the USB descriptors.
pub open spec fn info_out(id: u8, version: DAPVersion, firmware: Seq<u8>) -> Seq<u8> {
    if id == 0x04 {
        seq![(firmware.len() % 256) as u8] + firmware
    } else if id == 0xF0 {
        // SWD, JTAG and SWO over UART; no Manchester SWO, no atomic
        // commands, no test domain timer; SWO streaming.
        seq![1u8, 0b0100_0111u8]
    } else if id == 0xFD {
        seq![4u8] + le32_bytes(256)
    } else if id == 0xFE {
        seq![1u8, 1u8]
    } else if id == 0xFF {
        seq![2u8] + le16_bytes(
            match version {
                DAPVersion::V1 => crate::DAP1_PACKET_SIZE,
                DAPVersion::V2 => crate::DAP2_PACKET_SIZE,
            },
        )
    } else {
        seq![0u8]
    }
}

/// Trace of `DAP_HostStatus`: a report on the connection sets the LEDs,
/// which light when driven low.
pub open spec fn host_status_ops(kind: u8, status: u8) -> Seq<Op> {
    if kind == 0 && status == 0 {
        seq![Op::PinWrite(Line::LedRed, false), Op::PinWrite(Line::LedGreen, true)]
    } else if kind == 0 && status == 1 {
        seq![Op::PinWrite(Line::LedRed, true), Op::PinWrite(Line::LedGreen, false)]
    } else {
        Seq::empty()
    }
}

/// The wire protocol that a port number of `DAP_Connect` asks for: SWD by
/// default.
pub open spec fn connect_mode(port: u8) -> Option<DAPMode> {
    if port == 0 || port == 1 {
        Some(DAPMode::SWD)
    } else if port == 2 {
        Some(DAPMode::JTAG)
    } else {
        None
    }
}

impl DAP {
    /// The receiver's index is within its ring, and twice its clock fits in
    /// 32 bits.
    pub open spec fn wf(&self) -> bool {
        self.uart.wf()
    }

    /// A processor that is not connected, does not stream trace output, and
    /// repeats a read five times for a value match.
    pub fn new(swd: SWD, jtag: JTAG, uart: UART, firmware_version: Vec<u8>) -> (dap: Self)
        ensures
            dap == (DAP {
                swd,
                jtag,
                uart,
                mode: None,
                swo_streaming: false,
                match_retries: 5,
                firmware_version,
            }),
    {
        DAP { swd, jtag, uart, mode: None, swo_streaming: false, match_retries: 5, firmware_version }
    }

    /// Takes from the clocks what the trace receiver needs for its baud
    /// rate.
    pub fn setup(&mut self, clocks: &Clocks)
        requires
            2 * clocks.spec_pclk2() <= u32::MAX,
        ensures
            *final(self) == (DAP {
                uart: UART { fck: clocks.spec_pclk2() as u32, ..old(self).uart },
                ..*old(self)
            }),
    {
        self.uart.setup(clocks);
    }

    /// Whether trace output is being received and goes to the host by its
    /// own endpoint. The receiver is asked whether it is enabled.
    pub fn is_swo_streaming<H: Board>(&self, hw: &mut H) -> (streaming: bool)
        ensures
            exists|active: bool| #[trigger]
                asked_whether_active(old(hw).trace(), final(hw).trace(), active) && streaming == (
                active && self.swo_streaming),
    {
        let active = self.uart.is_active(hw);
        assert(asked_whether_active(old(hw).trace(), hw.trace(), active));
        active && self.swo_streaming
    }

    /// Takes the trace bytes that wait into the start of `buf`, as far as
    /// there is room, and returns their number.
    pub fn read_swo<H: Board>(&mut self, hw: &mut H, buf: &mut [u8]) -> (n: usize)
        requires
            old(self).wf(),
        ensures
            final(self).wf(),
            *final(self) == (DAP {
                uart: UART { last_idx: final(self).uart.last_idx, ..old(self).uart },
                ..*old(self)
            }),
            final(buf)@.len() == old(buf)@.len(),
            n <= old(buf)@.len(),
            final(buf)@.skip(n as int) == old(buf)@.skip(n as int),
            ring_read_between(
                Port::Swo,
                old(self).uart.last_idx,
                old(buf)@.len(),
                old(hw).trace(),
                final(hw).trace(),
                final(buf)@.take(n as int),
                final(self).uart.last_idx,
            ),
    {
        self.uart.read(hw, buf)
    }

    fn process_info(&self, mut req: Request, resp: &mut ResponseWriter, version: DAPVersion)
        requires
            old(resp).idx == 1,
            req.data@.len() >= 1,
            old(resp).buf@.len() >= 1 + info_out(
                req.data@[0],
                version,
                self.firmware_version@,
            ).len(),
        ensures
            final(final(resp).buf)@ == final(old(resp).buf)@,
            answered(
                old(resp).buf@,
                final(resp).buf@,
                final(resp).idx,
                info_out(req.data@[0], version, self.firmware_version@),
            ),
    {
        let ghost out = info_out(req.data@[0], version, self.firmware_version@);
        let id = req.next_u8();
        if id == 0x04 {
            // The firmware version.
            resp.write_u8((self.firmware_version.len() % 256) as u8);
            resp.write_slice(self.firmware_version.as_slice());
        } else if id == 0xF0 {
            // The capabilities.
            resp.write_u8(1);
            resp.write_u8(0b0100_0111);
        } else if id == 0xFD {
            // The size of the trace buffer.
            resp.write_u8(4);
            resp.write_u32(self.uart.buffer_len() as u32);
        } else if id == 0xFE {
            // One packet at a time.
            resp.write_u8(1);
            resp.write_u8(1);
        } else if id == 0xFF {
            // The packet size.
            resp.write_u8(2);
            match version {
                DAPVersion::V1 => {
                    resp.write_u16(crate::DAP1_PACKET_SIZE);
                },
                DAPVersion::V2 => {
                    resp.write_u16(crate::DAP2_PACKET_SIZE);
                },
            }
        } else {
            resp.write_u8(0);
        }
        assert(resp.buf@.skip(resp.idx as int) =~= old(resp).buf@.skip(resp.idx as int));
        assert(resp.buf@.subrange(1, resp.idx as int) =~= out);
    }

    fn process_host_status<H: Board>(&self, hw: &mut H, mut req: Request, resp: &mut ResponseWriter)
        requires
            old(resp).idx == 1,
            req.data@.len() >= 2,
            old(resp).buf@.len() >= 2,
        ensures
            final(final(resp).buf)@ == final(old(resp).buf)@,
            answered(old(resp).buf@, final(resp).buf@, final(resp).idx, seq![0u8]),
            final(hw).trace() == old(hw).trace() + host_status_ops(req.data@[0], req.data@[1]),
    {
        let ghost payload = req.data@;
        let status_type = req.next_u8();
        let status_status = req.next_u8();
        if status_type == 0 {
            if status_status == 0 {
                hw.pin_write(Line::LedRed, false);
                hw.pin_write(Line::LedGreen, true);
            } else if status_status == 1 {
                hw.pin_write(Line::LedRed, true);
                hw.pin_write(Line::LedGreen, false);
            }
        }
        resp.write_u8(0);
        assert(hw.trace() =~= old(hw).trace() + host_status_ops(payload[0], payload[1]));
        assert(resp.buf@.skip(resp.idx as int) =~= old(resp).buf@.skip(resp.idx as int));
        assert(resp.buf@.subrange(1, resp.idx as int) =~= seq![0u8]);
    }

    /// Trace of `DAP_Connect`: the lines are set up for the wire protocol and
    /// its SPI peripheral is set up; nothing happens for a port number that
    /// stands for none.
    pub open spec fn connect_ops(&self, port: u8) -> Seq<Op> {
        match connect_mode(port) {
            Some(DAPMode::SWD) => swd_mode_ops() + seq![Op::SpiSetupSwd(self.swd.spi.bus)],
            Some(DAPMode::JTAG) => jtag_mode_ops() + seq![Op::SpiSetupJtag(self.jtag.spi.bus)],
            None => Seq::empty(),
        }
    }

    fn process_connect<H: Board>(&mut self, hw: &mut H, mut req: Request, resp: &mut ResponseWriter)
        requires
            old(resp).idx == 1,
            req.data@.len() >= 1,
            old(resp).buf@.len() >= 2,
        ensures
            final(final(resp).buf)@ == final(old(resp).buf)@,
            match connect_mode(req.data@[0]) {
                Some(DAPMode::SWD) => {
                    &&& *final(self) == (DAP { mode: Some(DAPMode::SWD), ..*old(self) })
                    &&& answered(old(resp).buf@, final(resp).buf@, final(resp).idx, seq![1u8])
                },
                Some(DAPMode::JTAG) => {
                    &&& *final(self) == (DAP { mode: Some(DAPMode::JTAG), ..*old(self) })
                    &&& answered(old(resp).buf@, final(resp).buf@, final(resp).idx, seq![2u8])
                },
                None => {
                    &&& *final(self) == *old(self)
                    &&& answered(old(resp).buf@, final(resp).buf@, final(resp).idx, seq![0u8])
                },
            },
            final(hw).trace() == old(hw).trace() + old(self).connect_ops(req.data@[0]),
    {
        let port = req.next_u8();
        if port == 0 || port == 1 {
            Pins::swd_mode(hw);
            self.swd.spi_enable(hw);
            self.mode = Some(DAPMode::SWD);
            resp.write_u8(1);
            assert(resp.buf@.skip(resp.idx as int) =~= old(resp).buf@.skip(resp.idx as int));
            assert(resp.buf@.subrange(1, resp.idx as int) =~= seq![1u8]);
        } else if port == 2 {
            Pins::jtag_mode(hw);
            self.jtag.spi_enable(hw);
            self.mode = Some(DAPMode::JTAG);
            resp.write_u8(2);
            assert(resp.buf@.skip(resp.idx as int) =~= old(resp).buf@.skip(resp.idx as int));
            assert(resp.buf@.subrange(1, resp.idx as int) =~= seq![2u8]);
        } else {
            resp.write_u8(0);
            assert(resp.buf@.skip(resp.idx as int) =~= old(resp).buf@.skip(resp.idx as int));
            assert(resp.buf@.subrange(1, resp.idx as int) =~= seq![0u8]);
        }
        assert(hw.trace() =~= old(hw).trace() + old(self).connect_ops(port));
    }

    /// Trace of `DAP_Disconnect`: every debug line is released and both SPI
    /// peripherals are disabled.
    pub open spec fn disconnect_ops(&self) -> Seq<Op> {
        high_impedance_ops() + seq![
            Op::SpiDisable(self.swd.spi.bus),
            Op::SpiDisable(self.jtag.spi.bus),
        ]
    }

    fn process_disconnect<H: Board>(&mut self, hw: &mut H, resp: &mut ResponseWriter)
        requires
            old(resp).idx == 1,
            old(resp).buf@.len() >= 2,
        ensures
            final(final(resp).buf)@ == final(old(resp).buf)@,
            *final(self) == (DAP { mode: None, ..*old(self) }),
            answered(old(resp).buf@, final(resp).buf@, final(resp).idx, seq![DAP_OK]),
            final(hw).trace() == old(hw).trace() + old(self).disconnect_ops(),
    {
        Pins::high_impedance_mode(hw);
        self.mode = None;
        self.swd.spi_disable(hw);
        self.jtag.spi_disable(hw);
        resp.write_ok();
        assert(hw.trace() =~= old(hw).trace() + old(self).disconnect_ops());
        assert(resp.buf@.skip(resp.idx as int) =~= old(resp).buf@.skip(resp.idx as int));
        assert(resp.buf@.subrange(1, resp.idx as int) =~= seq![DAP_OK]);
    }

    fn process_delay<H: Board>(&self, hw: &mut H, mut req: Request, resp: &mut ResponseWriter)
        requires
            old(resp).idx == 1,
            req.data@.len() >= 2,
            old(resp).buf@.len() >= 2,
        ensures
            final(final(resp).buf)@ == final(old(resp).buf)@,
            answered(old(resp).buf@, final(resp).buf@, final(resp).idx, seq![DAP_OK]),
            final(hw).trace() == old(hw).trace().push(
                Op::Spin((48 * le16(req.data@[0], req.data@[1])) as u32),
            ),
    {
        let delay = req.next_u16() as u32;
        hw.spin(48 * delay);
        resp.write_ok();
        assert(resp.buf@.skip(resp.idx as int) =~= old(resp).buf@.skip(resp.idx as int));
        assert(resp.buf@.subrange(1, resp.idx as int) =~= seq![DAP_OK]);
    }

    fn process_reset_target(&self, resp: &mut ResponseWriter)
        requires
            old(resp).idx == 1,
            old(resp).buf@.len() >= 3,
        ensures
            final(final(resp).buf)@ == final(old(resp).buf)@,
            answered(old(resp).buf@, final(resp).buf@, final(resp).idx, seq![DAP_OK, 0u8]),
    {
        resp.write_ok();
        // No reset sequence particular to a device is implemented.
        resp.write_u8(0);
        assert(resp.buf@.skip(resp.idx as int) =~= old(resp).buf@.skip(resp.idx as int));
        assert(resp.buf@.subrange(1, resp.idx as int) =~= seq![DAP_OK, 0u8]);
    }

    fn process_swd_configure(&self, mut req: Request, resp: &mut ResponseWriter)
        requires
            old(resp).idx == 1,
            req.data@.len() >= 1,
            old(resp).buf@.len() >= 2,
        ensures
            final(final(resp).buf)@ == final(old(resp).buf)@,
            answered(
                old(resp).buf@,
                final(resp).buf@,
                final(resp).idx,
                seq![
                    if req.data@[0] & 0b011 == 0 && req.data@[0] & 0b100 == 0 {
                        DAP_OK
                    } else {
                        DAP_ERROR
                    },
                ],
            ),
    {
        let config = req.next_u8();
        let clk_period = config & 0b011;
        let always_data = (config & 0b100) != 0;
        if clk_period == 0 && !always_data {
            resp.write_ok();
            assert(resp.buf@.skip(resp.idx as int) =~= old(resp).buf@.skip(resp.idx as int));
            assert(resp.buf@.subrange(1, resp.idx as int) =~= seq![DAP_OK]);
        } else {
            resp.write_err();
            assert(resp.buf@.skip(resp.idx as int) =~= old(resp).buf@.skip(resp.idx as int));
            assert(resp.buf@.subrange(1, resp.idx as int) =~= seq![DAP_ERROR]);
        }
    }

    fn process_swo_transport(&mut self, mut req: Request, resp: &mut ResponseWriter)
        requires
            old(resp).idx == 1,
            req.data@.len() >= 1,
            old(resp).buf@.len() >= 2,
        ensures
            final(final(resp).buf)@ == final(old(resp).buf)@,
            req.data@[0] <= 2 ==> {
                &&& *final(self) == (DAP { swo_streaming: req.data@[0] == 2, ..*old(self) })
                &&& answered(old(resp).buf@, final(resp).buf@, final(resp).idx, seq![DAP_OK])
            },
            req.data@[0] > 2 ==> {
                &&& *final(self) == *old(self)
                &&& answered(old(resp).buf@, final(resp).buf@, final(resp).idx, seq![DAP_ERROR])
            },
    {
        let transport = req.next_u8();
        if transport == 0 || transport == 1 {
            self.swo_streaming = false;
            resp.write_ok();
            assert(resp.buf@.skip(resp.idx as int) =~= old(resp).buf@.skip(resp.idx as int));
            assert(resp.buf@.subrange(1, resp.idx as int) =~= seq![DAP_OK]);
        } else if transport == 2 {
            self.swo_streaming = true;
            resp.write_ok();
            assert(resp.buf@.skip(resp.idx as int) =~= old(resp).buf@.skip(resp.idx as int));
            assert(resp.buf@.subrange(1, resp.idx as int) =~= seq![DAP_OK]);
        } else {
            resp.write_err();
            assert(resp.buf@.skip(resp.idx as int) =~= old(resp).buf@.skip(resp.idx as int));
            assert(resp.buf@.subrange(1, resp.idx as int) =~= seq![DAP_ERROR]);
        }
    }

    fn process_swo_mode(&self, mut req: Request, resp: &mut ResponseWriter)
        requires
            old(resp).idx == 1,
            req.data@.len() >= 1,
            old(resp).buf@.len() >= 2,
        ensures
            final(final(resp).buf)@ == final(old(resp).buf)@,
            answered(
                old(resp).buf@,
                final(resp).buf@,
                final(resp).idx,
                seq![
                    if req.data@[0] <= 1 {
                        DAP_OK
                    } else {
                        DAP_ERROR
                    },
                ],
            ),
    {
        let mode = req.next_u8();
        if mode == 0 || mode == 1 {
            resp.write_ok();
            assert(resp.buf@.skip(resp.idx as int) =~= old(resp).buf@.skip(resp.idx as int));
            assert(resp.buf@.subrange(1, resp.idx as int) =~= seq![DAP_OK]);
        } else {
            resp.write_err();
            assert(resp.buf@.skip(resp.idx as int) =~= old(resp).buf@.skip(resp.idx as int));
            assert(resp.buf@.subrange(1, resp.idx as int) =~= seq![DAP_ERROR]);
        }
    }

    fn process_transfer_configure(&mut self, mut req: Request, resp: &mut ResponseWriter)
        requires
            old(resp).idx == 1,
            req.data@.len() >= 5,
            old(resp).buf@.len() >= 2,
        ensures
            final(final(resp).buf)@ == final(old(resp).buf)@,
            *final(self) == (DAP {
                swd: SWD {
                    wait_retries: le16(req.data@[1], req.data@[2]) as usize,
                    ..old(self).swd
                },
                match_retries: le16(req.data@[3], req.data@[4]) as usize,
                ..*old(self)
            }),
            answered(old(resp).buf@, final(resp).buf@, final(resp).idx, seq![DAP_OK]),
    {
        // Idle cycles between transfers are not supported.
        let _idle_cycles = req.next_u8();
        let wait_retries = req.next_u16();
        self.swd.set_wait_retries(wait_retries as usize);
        let match_retries = req.next_u16();
        self.match_retries = match_retries as usize;
        resp.write_ok();
        assert(resp.buf@.skip(resp.idx as int) =~= old(resp).buf@.skip(resp.idx as int));
        assert(resp.buf@.subrange(1, resp.idx as int) =~= seq![DAP_OK]);
    }
}

/// Trace of driving `line` to `level`, if it is selected.
pub open spec fn driven(selected: bool, line: Line, level: bool) -> Seq<Op> {
    if selected {
        seq![Op::PinWrite(line, level)]
    } else {
        Seq::empty()
    }
}

/// Trace of taking `line` for the pin and driving it to `level`, if it is
/// selected.
pub open spec fn seized(selected: bool, line: Line, level: bool) -> Seq<Op> {
    if selected {
        seq![Op::PinMode(line, PinMode::Output), Op::PinWrite(line, level)]
    } else {
        Seq::empty()
    }
}

/// Trace of the lines that `DAP_SWJ_Pins` sets: of those that `mask`
/// selects, the ones that the wire protocol in force lets the host set,
/// each to its bit of `output`. In SWD mode the clock and data lines are
/// taken from the SPI peripheral for it. The reset line can always be set.
pub open spec fn swj_pins_set_ops(mode: Option<DAPMode>, output: u8, mask: u8) -> Seq<Op> {
    (match mode {
        Some(DAPMode::SWD) => seized(mask & 0x02 != 0, Line::Spi1Mosi, output & 0x02 != 0)
            + seized(mask & 0x01 != 0, Line::Spi1Clk, output & 0x01 != 0),
        Some(DAPMode::JTAG) => driven(mask & 0x02 != 0, Line::Spi1Mosi, output & 0x02 != 0)
            + driven(mask & 0x01 != 0, Line::Spi2Clk, output & 0x01 != 0) + driven(
            mask & 0x04 != 0,
            Line::Spi2Mosi,
            output & 0x04 != 0,
        ),
        None => Seq::empty(),
    }) + driven(mask & 0x80 != 0, Line::Reset, output & 0x80 != 0)
}

/// Trace of the lines that `DAP_SWJ_Pins` samples, where `state` is the
/// byte it answers with: SWCLK in bit 0, SWDIO in bit 1, TDI in bit 2, TDO
/// in bit 3 and the reset line in bit 7.
pub open spec fn swj_pins_read_ops(state: u8) -> Seq<Op> {
    seq![
        Op::PinRead(Line::Spi1Clk, state & 0x01 != 0),
        Op::PinRead(Line::Spi1Miso, state & 0x02 != 0),
        Op::PinRead(Line::Spi2Mosi, state & 0x04 != 0),
        Op::PinRead(Line::Spi2Miso, state & 0x08 != 0),
        Op::PinRead(Line::Reset, state & 0x80 != 0),
    ]
}

/// Trace of `DAP_SWJ_Pins`: the lines are set, the wait passes, and the
/// lines are sampled.
pub open spec fn swj_pins_ops(
    mode: Option<DAPMode>,
    output: u8,
    mask: u8,
    wait: u32,
    state: u8,
) -> Seq<Op> {
    swj_pins_set_ops(mode, output, mask) + seq![Op::Spin((42 * wait) as u32)] + swj_pins_read_ops(
        state,
    )
}

proof fn lemma_pin_state(a: u8, b: u8, c: u8, d: u8, e: u8)
    by (bit_vector)
    requires
        a == 0 || a == 0x01,
        b == 0 || b == 0x02,
        c == 0 || c == 0x04,
        d == 0 || d == 0x08,
        e == 0 || e == 0x80,
    ensures
        ((a | b | c | d | 0x20 | e) & 0x01 != 0) == (a != 0),
        ((a | b | c | d | 0x20 | e) & 0x02 != 0) == (b != 0),
        ((a | b | c | d | 0x20 | e) & 0x04 != 0) == (c != 0),
        ((a | b | c | d | 0x20 | e) & 0x08 != 0) == (d != 0),
        ((a | b | c | d | 0x20 | e) & 0x80 != 0) == (e != 0),
        (a | b | c | d | 0x20 | e) & 0x70 == 0x20,
{
}

/// Number of bits that `DAP_SWJ_Sequence` clocks out for a count byte: 256
/// for 0.
pub open spec fn swj_bits(count: u8) -> nat {
    if count == 0 {
        256
    } else {
        count as nat
    }
}

impl DAP {
    /// What `DAP_WriteABORT` leaves behind while connected, where the wire
    /// carried `tries` back: `word` was written to register 0 of the debug
    /// port, and the answer says whether the write went through.
    pub open spec fn abort_done(
        &self,
        word: u32,
        before: Seq<Op>,
        after: Seq<Op>,
        tries: Seq<Attempt>,
        out: Seq<u8>,
    ) -> bool {
        let x = Access { apndp: APnDP::DP, rnw: RnW::W, a: 0, data: word };
        &&& performed(self.swd.spi, x, self.swd.wait_retries, before, after, tries)
        &&& out == seq![
            if access_error(x, tries) is None {
                DAP_OK
            } else {
                DAP_ERROR
            },
        ]
    }

    fn process_write_abort<H: Board>(&self, hw: &mut H, mut req: Request, resp: &mut ResponseWriter)
        requires
            old(resp).idx == 1,
            old(resp).buf@.len() >= 2,
            self.mode is Some ==> req.data@.len() >= 5,
        ensures
            final(final(resp).buf)@ == final(old(resp).buf)@,
            answered(
                old(resp).buf@,
                final(resp).buf@,
                final(resp).idx,
                seq![final(resp).buf@[1]],
            ),
            self.mode is None ==> final(resp).buf@[1] == DAP_ERROR && final(hw).trace() == old(
                hw,
            ).trace(),
            self.mode is Some ==> exists|tries: Seq<Attempt>| #[trigger]
                self.abort_done(
                    le32(req.data@[1], req.data@[2], req.data@[3], req.data@[4]) as u32,
                    old(hw).trace(),
                    final(hw).trace(),
                    tries,
                    seq![final(resp).buf@[1]],
                ),
    {
        if self.mode.is_none() {
            resp.write_err();
            assert(resp.buf@.skip(resp.idx as int) =~= old(resp).buf@.skip(resp.idx as int));
            assert(resp.buf@.subrange(1, resp.idx as int) =~= seq![resp.buf@[1]]);
            return ;
        }
        let ghost given = req.data@;
        let _idx = req.next_u8();
        let word = req.next_u32();
        assert(word == le32(given[1], given[2], given[3], given[4]));
        let r = self.swd.write_dp(hw, 0x00, word);
        let ghost x = Access { apndp: APnDP::DP, rnw: RnW::W, a: 0, data: word };
        let ghost tries = choose|tries: Seq<Attempt>| #[trigger]
            performed(
                self.swd.spi,
                x,
                self.swd.wait_retries,
                old(hw).trace(),
                hw.trace(),
                tries,
            ) && r == crate::swd::write_result(x, tries);
        match r {
            Ok(_) => resp.write_ok(),
            Err(_) => resp.write_err(),
        }
        assert(resp.buf@.skip(resp.idx as int) =~= old(resp).buf@.skip(resp.idx as int));
        assert(resp.buf@.subrange(1, resp.idx as int) =~= seq![resp.buf@[1]]);
        assert(self.abort_done(
            le32(given[1], given[2], given[3], given[4]) as u32,
            old(hw).trace(),
            hw.trace(),
            tries,
            seq![resp.buf@[1]],
        ));
    }

    /// Drives `line` to `level`, if it is selected.
    fn drive<H: Board>(hw: &mut H, selected: bool, line: Line, level: bool)
        ensures
            final(hw).trace() == old(hw).trace() + driven(selected, line, level),
    {
        if selected {
            hw.pin_write(line, level);
        }
        assert(hw.trace() =~= old(hw).trace() + driven(selected, line, level));
    }

    /// Takes `line` for the pin and drives it to `level`, if it is selected.
    fn seize<H: Board>(hw: &mut H, selected: bool, line: Line, level: bool)
        ensures
            final(hw).trace() == old(hw).trace() + seized(selected, line, level),
    {
        if selected {
            hw.pin_mode(line, PinMode::Output);
            hw.pin_write(line, level);
        }
        assert(hw.trace() =~= old(hw).trace() + seized(selected, line, level));
    }

    /// Sets the lines that `DAP_SWJ_Pins` selects.
    fn swj_pins_set<H: Board>(&self, hw: &mut H, output: u8, mask: u8)
        ensures
            final(hw).trace() == old(hw).trace() + swj_pins_set_ops(self.mode, output, mask),
    {
        let ghost t0 = hw.trace();
        let ghost reset = driven(mask & 0x80 != 0, Line::Reset, output & 0x80 != 0);
        match self.mode {
            Some(DAPMode::SWD) => {
                // Between transfers the SPI peripheral holds these lines:
                // take them for the pins. The next transfer hands them back.
                Self::seize(hw, mask & 0x02 != 0, Line::Spi1Mosi, output & 0x02 != 0);
                Self::seize(hw, mask & 0x01 != 0, Line::Spi1Clk, output & 0x01 != 0);
                // The reset line is open drain and always an output.
                Self::drive(hw, mask & 0x80 != 0, Line::Reset, output & 0x80 != 0);
                proof {
                    let a = seized(mask & 0x02 != 0, Line::Spi1Mosi, output & 0x02 != 0);
                    let b = seized(mask & 0x01 != 0, Line::Spi1Clk, output & 0x01 != 0);
                    lemma_concat_associative(t0, a, b);
                    lemma_concat_associative(t0, a + b, reset);
                }
            },
            Some(DAPMode::JTAG) => {
                // Between transfers the pins hold these lines already. TDO
                // is an input and is left alone.
                Self::drive(hw, mask & 0x02 != 0, Line::Spi1Mosi, output & 0x02 != 0);
                Self::drive(hw, mask & 0x01 != 0, Line::Spi2Clk, output & 0x01 != 0);
                Self::drive(hw, mask & 0x04 != 0, Line::Spi2Mosi, output & 0x04 != 0);
                Self::drive(hw, mask & 0x80 != 0, Line::Reset, output & 0x80 != 0);
                proof {
                    let a = driven(mask & 0x02 != 0, Line::Spi1Mosi, output & 0x02 != 0);
                    let b = driven(mask & 0x01 != 0, Line::Spi2Clk, output & 0x01 != 0);
                    let c = driven(mask & 0x04 != 0, Line::Spi2Mosi, output & 0x04 != 0);
                    lemma_concat_associative(t0, a, b);
                    lemma_concat_associative(t0, a + b, c);
                    lemma_concat_associative(t0, a + b + c, reset);
                }
            },
            None => {
                Self::drive(hw, mask & 0x80 != 0, Line::Reset, output & 0x80 != 0);
                assert(Seq::<Op>::empty() + reset =~= reset);
            },
        }
    }

    fn process_swj_pins<H: Board>(&self, hw: &mut H, mut req: Request, resp: &mut ResponseWriter)
        requires
            old(resp).idx == 1,
            old(resp).buf@.len() >= 2,
            req.data@.len() >= 6,
            42 * le32(req.data@[2], req.data@[3], req.data@[4], req.data@[5]) <= u32::MAX,
        ensures
            final(final(resp).buf)@ == final(old(resp).buf)@,
            answered(
                old(resp).buf@,
                final(resp).buf@,
                final(resp).idx,
                seq![final(resp).buf@[1]],
            ),
            final(resp).buf@[1] & 0x70 == 0x20,
            final(hw).trace() == old(hw).trace() + swj_pins_ops(
                self.mode,
                req.data@[0],
                req.data@[1],
                le32(req.data@[2], req.data@[3], req.data@[4], req.data@[5]) as u32,
                final(resp).buf@[1],
            ),
    {
        let output = req.next_u8();
        let mask = req.next_u8();
        let wait = req.next_u32();

        self.swj_pins_set(hw, output, mask);
        let ghost set = hw.trace();

        hw.spin(42 * wait);

        let swclk: u8 = if hw.pin_read(Line::Spi1Clk) {
            0x01
        } else {
            0
        };
        let swdio: u8 = if hw.pin_read(Line::Spi1Miso) {
            0x02
        } else {
            0
        };
        let tdi: u8 = if hw.pin_read(Line::Spi2Mosi) {
            0x04
        } else {
            0
        };
        let tdo: u8 = if hw.pin_read(Line::Spi2Miso) {
            0x08
        } else {
            0
        };
        let nreset: u8 = if hw.pin_read(Line::Reset) {
            0x80
        } else {
            0
        };
        // nTRST is not wired and reads as 1.
        let state = swclk | swdio | tdi | tdo | 0x20 | nreset;
        proof {
            lemma_pin_state(swclk, swdio, tdi, tdo, nreset);
            let lines = swj_pins_set_ops(self.mode, output, mask);
            let spin = seq![Op::Spin((42 * wait) as u32)];
            let reads = swj_pins_read_ops(state);
            assert(hw.trace() =~= set + spin + reads);
            lemma_concat_associative(old(hw).trace(), lines, spin);
            lemma_concat_associative(old(hw).trace(), lines + spin, reads);
        }
        resp.write_u8(state);
        assert(resp.buf@.skip(resp.idx as int) =~= old(resp).buf@.skip(resp.idx as int));
        assert(resp.buf@.subrange(1, resp.idx as int) =~= seq![resp.buf@[1]]);
    }

    /// Trace of `DAP_SWJ_Clock`: each engine sets the divider of its SPI
    /// clock, where there is one for the frequency.
    pub open spec fn swj_clock_ops(&self, clock: u32) -> Seq<Op> {
        self.jtag.clock_ops(clock) + self.swd.clock_ops(clock)
    }

    /// The processor after `DAP_SWJ_Clock`: both engines have the clock.
    pub open spec fn swj_clock_set(&self, clock: u32) -> DAP {
        DAP { jtag: self.jtag.with_clock(clock), swd: self.swd.with_clock(clock), ..*self }
    }

    /// What `DAP_SWJ_Clock` answers: whether the SPI clock of the SWD
    /// engine has a divider for the frequency. For 0 Hz there is none.
    pub open spec fn swj_clock_status(&self, clock: u32) -> u8 {
        if clock > 0 && prescaler_for(self.swd.spi.base_clock, clock) is Some {
            DAP_OK
        } else {
            DAP_ERROR
        }
    }

    fn process_swj_clock<H: Board>(&mut self, hw: &mut H, mut req: Request, resp: &mut ResponseWriter)
        requires
            old(resp).idx == 1,
            old(resp).buf@.len() >= 2,
            req.data@.len() >= 4,
        ensures
            final(final(resp).buf)@ == final(old(resp).buf)@,
            ({
                let clock = le32(req.data@[0], req.data@[1], req.data@[2], req.data@[3]) as u32;
                &&& *final(self) == old(self).swj_clock_set(clock)
                &&& final(hw).trace() == old(hw).trace() + old(self).swj_clock_ops(clock)
                &&& answered(
                    old(resp).buf@,
                    final(resp).buf@,
                    final(resp).idx,
                    seq![old(self).swj_clock_status(clock)],
                )
            }),
    {
        let clock = req.next_u32();
        self.jtag.set_clock(hw, clock);
        let valid = self.swd.set_clock(hw, clock);
        if valid {
            resp.write_ok();
            assert(resp.buf@.skip(resp.idx as int) =~= old(resp).buf@.skip(resp.idx as int));
            assert(resp.buf@.subrange(1, resp.idx as int) =~= seq![DAP_OK]);
        } else {
            resp.write_err();
            assert(resp.buf@.skip(resp.idx as int) =~= old(resp).buf@.skip(resp.idx as int));
            assert(resp.buf@.subrange(1, resp.idx as int) =~= seq![DAP_ERROR]);
        }
        assert(hw.trace() =~= old(hw).trace() + old(self).swj_clock_ops(clock));
    }

    /// Whether `DAP_SWJ_Sequence` clocks its bits out: the probe is
    /// connected, and the payload holds all the bits it announces.
    pub open spec fn swj_sequence_runs(&self, payload: Seq<u8>) -> bool {
        self.mode is Some && (swj_bits(payload[0]) + 7) / 8 <= payload.len() - 1
    }

    /// Trace of `DAP_SWJ_Sequence`: the bits go out through the engine of
    /// the wire protocol in force.
    pub open spec fn swj_sequence_ops(&self, payload: Seq<u8>) -> Seq<Op> {
        let nbits = swj_bits(payload[0]);
        let bytes = payload.subrange(1, 1 + ((nbits + 7) / 8) as int);
        if (nbits + 7) / 8 > payload.len() - 1 {
            Seq::empty()
        } else {
            match self.mode {
                Some(DAPMode::SWD) => tx_sequence_ops(self.swd.half_period_ticks, bytes, nbits),
                Some(DAPMode::JTAG) => tms_sequence_ops(self.jtag.half_period_ticks, bytes, nbits),
                None => Seq::empty(),
            }
        }
    }

    fn process_swj_sequence<H: Board>(&self, hw: &mut H, mut req: Request, resp: &mut ResponseWriter)
        requires
            old(resp).idx == 1,
            old(resp).buf@.len() >= 2,
            req.data@.len() >= 1,
        ensures
            final(final(resp).buf)@ == final(old(resp).buf)@,
            answered(
                old(resp).buf@,
                final(resp).buf@,
                final(resp).idx,
                seq![
                    if self.swj_sequence_runs(req.data@) {
                        DAP_OK
                    } else {
                        DAP_ERROR
                    },
                ],
            ),
            final(hw).trace() == old(hw).trace() + self.swj_sequence_ops(req.data@),
    {
        let ghost given = req.data@;
        let count = req.next_u8();
        // A count of 0 stands for 256 bits.
        let nbits: usize = if count == 0 {
            256
        } else {
            count as usize
        };
        let payload = req.rest();
        let nbytes = (nbits + 7) / 8;
        if nbytes > payload.len() {
            resp.write_err();
            assert(resp.buf@.skip(resp.idx as int) =~= old(resp).buf@.skip(resp.idx as int));
            assert(resp.buf@.subrange(1, resp.idx as int) =~= seq![DAP_ERROR]);
            assert(hw.trace() =~= old(hw).trace() + self.swj_sequence_ops(given));
            return ;
        }
        let seq = vstd::slice::slice_subrange(payload, 0, nbytes);
        assert(seq@ =~= given.subrange(1, 1 + nbytes));
        match self.mode {
            Some(DAPMode::SWD) => {
                self.swd.tx_sequence(hw, seq, nbits);
            },
            Some(DAPMode::JTAG) => {
                self.jtag.tms_sequence(hw, seq, nbits);
            },
            None => {
                resp.write_err();
                assert(resp.buf@.skip(resp.idx as int) =~= old(resp).buf@.skip(resp.idx as int));
                assert(resp.buf@.subrange(1, resp.idx as int) =~= seq![DAP_ERROR]);
                assert(hw.trace() =~= old(hw).trace() + self.swj_sequence_ops(given));
                return ;
            },
        }
        resp.write_ok();
        assert(resp.buf@.skip(resp.idx as int) =~= old(resp).buf@.skip(resp.idx as int));
        assert(resp.buf@.subrange(1, resp.idx as int) =~= seq![DAP_OK]);
    }

    fn process_swo_baudrate<H: Board>(&self, hw: &mut H, mut req: Request, resp: &mut ResponseWriter)
        requires
            old(resp).idx == 1,
            old(resp).buf@.len() >= 5,
            req.data@.len() >= 4,
            2 * self.uart.fck <= u32::MAX,
        ensures
            final(final(resp).buf)@ == final(old(resp).buf)@,
            ({
                let baud = le32(req.data@[0], req.data@[1], req.data@[2], req.data@[3]) as u32;
                &&& answered(
                    old(resp).buf@,
                    final(resp).buf@,
                    final(resp).idx,
                    le32_bytes(self.uart.baud_set(baud) as u32),
                )
                &&& final(hw).trace() == old(hw).trace() + self.uart.baud_ops(baud)
            }),
    {
        let target = req.next_u32();
        let actual = self.uart.set_baud(hw, target);
        resp.write_u32(actual);
        assert(resp.buf@.skip(resp.idx as int) =~= old(resp).buf@.skip(resp.idx as int));
        assert(resp.buf@.subrange(1, resp.idx as int) =~= le32_bytes(actual));
    }

    fn process_swo_control<H: Board>(&mut self, hw: &mut H, mut req: Request, resp: &mut ResponseWriter)
        requires
            old(resp).idx == 1,
            old(resp).buf@.len() >= 2,
            req.data@.len() >= 1,
        ensures
            final(final(resp).buf)@ == final(old(resp).buf)@,
            req.data@[0] == 0 ==> {
                &&& *final(self) == *old(self)
                &&& final(hw).trace() == old(hw).trace().push(Op::UartStop(Port::Swo))
                &&& answered(old(resp).buf@, final(resp).buf@, final(resp).idx, seq![DAP_OK])
            },
            req.data@[0] == 1 ==> {
                &&& *final(self) == (DAP {
                    uart: UART { last_idx: 0, ..old(self).uart },
                    ..*old(self)
                })
                &&& final(hw).trace() == old(hw).trace().push(Op::UartStart(Port::Swo))
                &&& answered(old(resp).buf@, final(resp).buf@, final(resp).idx, seq![DAP_OK])
            },
            req.data@[0] > 1 ==> {
                &&& *final(self) == *old(self)
                &&& final(hw).trace() == old(hw).trace()
                &&& answered(old(resp).buf@, final(resp).buf@, final(resp).idx, seq![DAP_ERROR])
            },
    {
        let control = req.next_u8();
        if control == 0 {
            self.uart.stop(hw);
            resp.write_ok();
            assert(resp.buf@.skip(resp.idx as int) =~= old(resp).buf@.skip(resp.idx as int));
            assert(resp.buf@.subrange(1, resp.idx as int) =~= seq![DAP_OK]);
        } else if control == 1 {
            self.uart.start(hw);
            resp.write_ok();
            assert(resp.buf@.skip(resp.idx as int) =~= old(resp).buf@.skip(resp.idx as int));
            assert(resp.buf@.subrange(1, resp.idx as int) =~= seq![DAP_OK]);
        } else {
            resp.write_err();
            assert(resp.buf@.skip(resp.idx as int) =~= old(resp).buf@.skip(resp.idx as int));
            assert(resp.buf@.subrange(1, resp.idx as int) =~= seq![DAP_ERROR]);
        }
    }

    /// What `DAP_SWO_Status` leaves behind, where the receiver stood at index
    /// `head` of its ring: the receiver was asked whether it is enabled and
    /// where it stands, and the answer holds whether trace is being
    /// received, in bit 0 of a byte whose error and overflow bits are never
    /// set, and the number of bytes that wait.
    pub open spec fn swo_status_done(
        &self,
        before: Seq<Op>,
        after: Seq<Op>,
        out: Seq<u8>,
        head: usize,
    ) -> bool {
        &&& out.len() == 5
        &&& out[0] <= 1
        &&& head <= ring_len(Port::Swo)
        &&& after == before + seq![
            Op::UartActive(Port::Swo, out[0] == 1),
            Op::UartHead(Port::Swo, head),
        ]
        &&& out.skip(1) == le32_bytes(
            ring_available(self.uart.last_idx as int, head as int, ring_len(Port::Swo) as int) as u32,
        )
    }

    fn process_swo_status<H: Board>(&self, hw: &mut H, resp: &mut ResponseWriter)
        requires
            old(resp).idx == 1,
            old(resp).buf@.len() >= 6,
            self.wf(),
        ensures
            final(final(resp).buf)@ == final(old(resp).buf)@,
            answered(
                old(resp).buf@,
                final(resp).buf@,
                final(resp).idx,
                final(resp).buf@.subrange(1, final(resp).idx as int),
            ),
            exists|head: usize| #[trigger]
                self.swo_status_done(
                    old(hw).trace(),
                    final(hw).trace(),
                    final(resp).buf@.subrange(1, final(resp).idx as int),
                    head,
                ),
    {
        let active: u8 = if self.uart.is_active(hw) {
            1
        } else {
            0
        };
        resp.write_u8(active);
        let ghost asked = hw.trace();
        let waiting = self.uart.bytes_available(hw);
        resp.write_u32(waiting as u32);
        proof {
            let head = choose|head: usize| #[trigger]
                ring_was_measured(Port::Swo, self.uart.last_idx, head, asked, hw.trace(), waiting);
            let out = resp.buf@.subrange(1, resp.idx as int);
            assert(resp.buf@.skip(resp.idx as int) =~= old(resp).buf@.skip(resp.idx as int));
            assert(out =~= seq![active] + le32_bytes(waiting as u32));
            assert(out.skip(1) =~= le32_bytes(waiting as u32));
            assert(hw.trace() =~= old(hw).trace() + seq![
                Op::UartActive(Port::Swo, out[0] == 1),
                Op::UartHead(Port::Swo, head),
            ]);
            assert(self.swo_status_done(old(hw).trace(), hw.trace(), out, head));
        }
    }

    fn process_swo_extended_status<H: Board>(&self, hw: &mut H, resp: &mut ResponseWriter)
        requires
            old(resp).idx == 1,
            old(resp).buf@.len() >= 14,
            self.wf(),
        ensures
            final(final(resp).buf)@ == final(old(resp).buf)@,
            answered(
                old(resp).buf@,
                final(resp).buf@,
                final(resp).idx,
                final(resp).buf@.subrange(1, final(resp).idx as int),
            ),
            final(resp).idx == 14,
            final(resp).buf@.subrange(6, 14) == le32_bytes(0) + le32_bytes(0),
            exists|head: usize| #[trigger]
                self.swo_status_done(
                    old(hw).trace(),
                    final(hw).trace(),
                    final(resp).buf@.subrange(1, 6),
                    head,
                ),
    {
        let active: u8 = if self.uart.is_active(hw) {
            1
        } else {
            0
        };
        resp.write_u8(active);
        let ghost asked = hw.trace();
        let waiting = self.uart.bytes_available(hw);
        resp.write_u32(waiting as u32);
        // The sequence number of the next trace and its time stamp are not
        // kept.
        resp.write_u32(0);
        resp.write_u32(0);
        proof {
            let head = choose|head: usize| #[trigger]
                ring_was_measured(Port::Swo, self.uart.last_idx, head, asked, hw.trace(), waiting);
            let out = resp.buf@.subrange(1, 6);
            assert(resp.buf@.skip(resp.idx as int) =~= old(resp).buf@.skip(resp.idx as int));
            assert(out =~= seq![active] + le32_bytes(waiting as u32));
            assert(out.skip(1) =~= le32_bytes(waiting as u32));
            assert(resp.buf@.subrange(6, 14) =~= le32_bytes(0) + le32_bytes(0));
            assert(hw.trace() =~= old(hw).trace() + seq![
                Op::UartActive(Port::Swo, out[0] == 1),
                Op::UartHead(Port::Swo, head),
            ]);
            assert(self.swo_status_done(old(hw).trace(), hw.trace(), out, head));
        }
    }

    /// What `DAP_SWO_Data` leaves behind, where the receiver stood at index
    /// `head` of its ring and the host asked for `asked` bytes with a
    /// response packet of `packet` bytes.
    ///
    /// The receiver is asked whether it is enabled, and the ring is read
    /// with room for what the host asked for, as far as the packet has room
    /// after the status byte and the length. The answer holds whether trace
    /// is being received, the number of bytes handed over, and the bytes.
    pub open spec fn swo_data_done(
        &self,
        then: DAP,
        asked: int,
        packet: int,
        before: Seq<Op>,
        after: Seq<Op>,
        out: Seq<u8>,
        head: usize,
    ) -> bool {
        let room = if asked < packet - 4 {
            asked
        } else {
            packet - 4
        };
        &&& out.len() >= 3
        &&& out[0] <= 1
        &&& out.subrange(1, 3) == le16_bytes((out.len() - 3) as u16)
        &&& then == (DAP { uart: UART { last_idx: then.uart.last_idx, ..self.uart }, ..*self })
        &&& ring_was_read(
            Port::Swo,
            self.uart.last_idx,
            head,
            room as nat,
            before.push(Op::UartActive(Port::Swo, out[0] == 1)),
            after,
            out.skip(3),
            then.uart.last_idx,
        )
    }

    #[verifier::rlimit(40)]
    fn process_swo_data<H: Board>(&mut self, hw: &mut H, mut req: Request, resp: &mut ResponseWriter)
        requires
            old(resp).idx == 1,
            old(resp).buf@.len() >= 4,
            req.data@.len() >= 2,
            old(self).wf(),
        ensures
            final(final(resp).buf)@ == final(old(resp).buf)@,
            final(self).wf(),
            answered(
                old(resp).buf@,
                final(resp).buf@,
                final(resp).idx,
                final(resp).buf@.subrange(1, final(resp).idx as int),
            ),
            exists|head: usize| #[trigger]
                old(self).swo_data_done(
                    *final(self),
                    le16(req.data@[0], req.data@[1]),
                    old(resp).buf@.len() as int,
                    old(hw).trace(),
                    final(hw).trace(),
                    final(resp).buf@.subrange(1, final(resp).idx as int),
                    head,
                ),
    {
        let ghost payload = req.data@;
        let active: u8 = if self.uart.is_active(hw) {
            1
        } else {
            0
        };
        resp.write_u8(active);
        let ghost asked_trace = hw.trace();

        // The length comes later.
        resp.skip(2);
        let total = resp.buf.len();

        let ghost opened = resp.buf@;
        let buf = resp.remaining();
        let ghost free = buf@;

        // No more than the host asked for.
        let n = req.next_u16() as usize;
        let limit = if buf.len() > n {
            n
        } else {
            buf.len()
        };
        let room = head_mut(buf, limit);
        let ghost room0 = room@;
        let len = self.uart.read(hw, room);
        let ghost got = room@.take(len as int);
        let ghost filled = room@;
        proof {
            lemma_read_into_packet(opened, resp.buf@, free, room0, filled, limit as int, len as int);
            assert(opened.skip(4 + len) =~= old(resp).buf@.skip(4 + len));
        }
        resp.skip(len);

        // Go back and write the length.
        resp.write_u16_at(2, len as u16);
        proof {
            let out = resp.buf@.subrange(1, resp.idx as int);
            assert(resp.buf@.skip(resp.idx as int) =~= old(resp).buf@.skip(resp.idx as int));
            assert(out.skip(3) =~= got);
            assert(out.subrange(1, 3) =~= le16_bytes(len as u16));
            let head = choose|head: usize| #[trigger]
                ring_was_read(
                    Port::Swo,
                    old(self).uart.last_idx,
                    head,
                    limit as nat,
                    asked_trace,
                    hw.trace(),
                    got,
                    self.uart.last_idx,
                );
            assert(old(self).swo_data_done(
                *self,
                le16(payload[0], payload[1]),
                old(resp).buf@.len() as int,
                old(hw).trace(),
                hw.trace(),
                out,
                head,
            ));
        }
    }

    /// What `DAP_JTAG_Sequence` leaves behind in JTAG mode, where `bulk_rx`
    /// came in during the exchange through the SPI peripheral: the answer
    /// is the status for success and the captured bytes, and the trace grew
    /// by the operations of the request.
    pub open spec fn jtag_sequence_done(
        &self,
        payload: Seq<u8>,
        before: Seq<Op>,
        after: Seq<Op>,
        out: Seq<u8>,
        bulk_rx: Seq<u8>,
    ) -> bool {
        &&& out.len() == 1 + self.jtag.captured(payload)
        &&& out[0] == DAP_OK
        &&& if asks_for_shifts(payload) {
            self.jtag.sequences_done(payload, before, after, out.skip(1), bulk_rx)
        } else {
            after == before
        }
    }

    /// Number of bytes at the start of the response packet that
    /// `DAP_JTAG_Sequence` may write: the opcode and the status, and in JTAG
    /// mode the room that the engine needs.
    pub open spec fn jtag_sequence_reach(&self, payload: Seq<u8>) -> nat {
        if self.mode == Some(DAPMode::JTAG) {
            2 + self.jtag.room_needed(payload)
        } else {
            2
        }
    }

    fn process_jtag_sequence<H: Board>(&self, hw: &mut H, req: Request, resp: &mut ResponseWriter)
        requires
            old(resp).idx == 1,
            old(resp).buf@.len() >= 2,
            self.mode == Some(DAPMode::JTAG) ==> req.data@.len() <= old(resp).buf@.len(),
        ensures
            final(final(resp).buf)@ == final(old(resp).buf)@,
            answer_is(
                old(resp).buf@,
                final(resp).buf@,
                final(resp).idx,
                final(resp).buf@.subrange(1, final(resp).idx as int),
            ),
            final(resp).idx <= self.jtag_sequence_reach(req.data@) <= final(resp).buf@.len(),
            final(resp).buf@.skip(self.jtag_sequence_reach(req.data@) as int)
                == old(resp).buf@.skip(self.jtag_sequence_reach(req.data@) as int),
            self.mode != Some(DAPMode::JTAG) ==> final(resp).buf@.subrange(
                1,
                final(resp).idx as int,
            ) == seq![DAP_ERROR] && final(hw).trace() == old(hw).trace(),
            self.mode == Some(DAPMode::JTAG) ==> exists|bulk_rx: Seq<u8>| #[trigger]
                self.jtag_sequence_done(
                    req.data@,
                    old(hw).trace(),
                    final(hw).trace(),
                    final(resp).buf@.subrange(1, final(resp).idx as int),
                    bulk_rx,
                ),
    {
        match self.mode {
            Some(DAPMode::JTAG) => {},
            _ => {
                resp.write_err();
                assert(resp.buf@.skip(resp.idx as int) =~= old(resp).buf@.skip(resp.idx as int));
                assert(resp.buf@.subrange(1, resp.idx as int) =~= seq![DAP_ERROR]);
                return ;
            },
        }
        resp.write_ok();
        let ghost payload = req.data@;
        let total = resp.buf.len();

        // The engine cannot fail: a request that makes no sense captures
        // nothing.
        proof {
            crate::jtag::lemma_room_within_request(self.jtag, payload);
        }
        let ghost opened = resp.buf@;
        let rest = resp.remaining();
        let ghost free = rest@;
        let size = self.jtag.sequences(hw, req.rest(), rest);
        let ghost captured = rest@.take(size as int);
        let ghost filled = rest@;
        resp.skip(size);
        proof {
            let out = resp.buf@.subrange(1, resp.idx as int);
            let room = self.jtag.room_needed(payload) as int;
            assert(out.skip(1) =~= captured);
            assert(resp.buf@.skip(2 + room) =~= old(resp).buf@.skip(2 + room)) by {
                let was = old(resp).buf@;
                assert forall|i: int| 2 + room <= i < resp.buf@.len() implies resp.buf@[i]
                    == was[i] by {
                    assert(resp.buf@[i] == filled[i - 2]);
                    assert(filled[i - 2] == filled.skip(room)[i - 2 - room]);
                    assert(free[i - 2] == free.skip(room)[i - 2 - room]);
                    assert(free[i - 2] == opened[i]);
                }
            }
            if asks_for_shifts(payload) {
                let bulk_rx = choose|bulk_rx: Seq<u8>| #[trigger]
                    self.jtag.sequences_stored(
                        payload,
                        old(hw).trace(),
                        hw.trace(),
                        filled,
                        size as int,
                        bulk_rx,
                    );
                assert(self.jtag_sequence_done(payload, old(hw).trace(), hw.trace(), out, bulk_rx));
            } else {
                assert(self.jtag_sequence_done(
                    payload,
                    old(hw).trace(),
                    hw.trace(),
                    out,
                    Seq::empty(),
                ));
            }
        }
    }
}

/// The status that a transfer command reports for the outcome of a
/// transfer on the wire.
pub open spec fn transfer_status(error: Option<Error>) -> u8 {
    match error {
        None => 1,
        Some(Error::AckWait) => 2,
        Some(Error::AckFault) => 4,
        Some(_) => (1u8 << 3u8) | 7u8,
    }
}

/// Reports the outcome of a transfer on the wire in a status byte.
pub trait CheckResult<T> {
    /// Writes the status for the outcome to `resp`, and returns what a
    /// transfer that went through brought.
    fn check(self, resp: &mut u8) -> Option<T>;
}

impl<T> CheckResult<T> for Result<T, Error> {
    fn check(self, resp: &mut u8) -> (value: Option<T>)
        ensures
            *final(resp) == transfer_status(
                match self {
                    Ok(_) => None,
                    Err(e) => Some(e),
                },
            ),
            value == match self {
                Ok(v) => Some(v),
                Err(_) => None::<T>,
            },
    {
        match self {
            Ok(v) => {
                *resp = 1;
                Some(v)
            },
            Err(Error::AckWait) => {
                *resp = 2;
                None
            },
            Err(Error::AckFault) => {
                *resp = 4;
                None
            },
            Err(_) => {
                *resp = (1u8 << 3u8) | 7u8;
                None
            },
        }
    }
}

/// One transfer on the wire, with what the wire carried back on each try.
pub struct Transaction {
    pub access: Access,
    pub tries: Seq<Attempt>,
}

impl Transaction {
    /// Why the transfer failed, if it did.
    pub open spec fn error(self) -> Option<Error> {
        access_error(self.access, self.tries)
    }

    /// The word that the transfer read, where it is a read that went
    /// through.
    pub open spec fn value(self) -> u32 {
        self.tries.last().data
    }
}

/// Trace of the given transfers, one after the other.
pub open spec fn transactions_ops(spi: crate::spi::SPI, txs: Seq<Transaction>) -> Seq<Op>
    decreases txs.len(),
{
    if txs.len() == 0 {
        Seq::empty()
    } else {
        transactions_ops(spi, txs.drop_last()) + access_ops(
            spi,
            txs.last().access,
            txs.last().tries,
        )
    }
}

/// Every one of the given transfers was retried as the policy says.
pub open spec fn all_lawful(txs: Seq<Transaction>, retries: usize) -> bool {
    forall|i: int| 0 <= i < txs.len() ==> follows_policy(#[trigger] txs[i].access, txs[i].tries, retries)
}

/// The port that a transfer request byte addresses.
pub open spec fn request_port(t: u8) -> APnDP {
    APnDP::of(t & 0x01 != 0)
}

/// Whether a transfer request byte asks for a read.
pub open spec fn request_reads(t: u8) -> bool {
    t & 0x02 != 0
}

/// The register address in a transfer request byte.
pub open spec fn request_address(t: u8) -> u8 {
    (t & 0x0C) >> 2u8
}

/// Trace of giving the SWD lines back to the SPI peripheral, in case
/// `DAP_SWJ_Pins` took them.
pub open spec fn restore_ops() -> Seq<Op> {
    seq![
        Op::PinMode(Line::Spi1Clk, PinMode::Alternate),
        Op::PinMode(Line::Spi1Mosi, PinMode::Alternate),
    ]
}

/// The transfer that round `i` of a block of `n` makes. Reads of the access
/// port are posted: the last round reads the word that is left in the read
/// buffer of the debug port.
pub open spec fn block_access(t: u8, n: nat, words: Seq<u8>, i: int) -> Access {
    if request_reads(t) {
        if request_port(t) == APnDP::AP && i >= n - 1 {
            Access { apndp: APnDP::DP, rnw: RnW::R, a: 3, data: 0 }
        } else {
            Access { apndp: request_port(t), rnw: RnW::R, a: request_address(t), data: 0 }
        }
    } else {
        Access {
            apndp: request_port(t),
            rnw: RnW::W,
            a: request_address(t),
            data: le32(words[4 * i], words[4 * i + 1], words[4 * i + 2], words[4 * i + 3]) as u32,
        }
    }
}

/// The words that the given reads brought, each with its low byte first.
pub open spec fn words_read(txs: Seq<Transaction>) -> Seq<u8>
    decreases txs.len(),
{
    if txs.len() == 0 {
        Seq::empty()
    } else {
        words_read(txs.drop_last()) + (if txs.last().error() is None {
            le32_bytes(txs.last().value())
        } else {
            Seq::empty()
        })
    }
}

/// Whether the packets have room for a block transfer that goes through:
/// for the words to write in the request, or for the words read in the
/// response.
pub open spec fn block_fits(payload: Seq<u8>, packet: nat) -> bool {
    &&& payload.len() >= 4
    &&& packet >= 4
    &&& if request_reads(payload[3]) {
        packet >= 4 + 4 * le16(payload[1], payload[2])
    } else {
        payload.len() >= 4 + 4 * le16(payload[1], payload[2])
    }
}

impl DAP {
    /// Reads a register and reports the outcome in the status byte at index
    /// `at` of the response.
    fn checked_read<H: Board>(
        &self,
        hw: &mut H,
        apndp: APnDP,
        a: u8,
        resp: &mut ResponseWriter,
        at: usize,
    ) -> (r: (Option<u32>, Ghost<Transaction>))
        requires
            at < old(resp).buf@.len(),
        ensures
            final(final(resp).buf)@ == final(old(resp).buf)@,
            final(resp).idx == old(resp).idx,
            final(resp).buf@ == old(resp).buf@.update(at as int, transfer_status(r.1@.error())),
            r.1@.access == (Access { apndp, rnw: RnW::R, a, data: 0 }),
            follows_policy(r.1@.access, r.1@.tries, self.swd.wait_retries),
            final(hw).trace() == old(hw).trace() + access_ops(
                self.swd.spi,
                r.1@.access,
                r.1@.tries,
            ),
            r.0 == (if r.1@.error() is None {
                Some(r.1@.value())
            } else {
                None
            }),
    {
        let result = self.swd.read(hw, apndp, a);
        let ghost x = Access { apndp, rnw: RnW::R, a, data: 0 };
        let ghost tries = choose|tries: Seq<Attempt>| #[trigger]
            performed(
                self.swd.spi,
                x,
                self.swd.wait_retries,
                old(hw).trace(),
                hw.trace(),
                tries,
            ) && result == read_result(x, tries);
        let value = result.check(resp.mut_at(at));
        (value, Ghost(Transaction { access: x, tries }))
    }

    /// Writes a register and reports the outcome in the status byte at
    /// index `at` of the response. Returns whether the write went through.
    fn checked_write<H: Board>(
        &self,
        hw: &mut H,
        apndp: APnDP,
        a: u8,
        data: u32,
        resp: &mut ResponseWriter,
        at: usize,
    ) -> (r: (bool, Ghost<Transaction>))
        requires
            at < old(resp).buf@.len(),
        ensures
            final(final(resp).buf)@ == final(old(resp).buf)@,
            final(resp).idx == old(resp).idx,
            final(resp).buf@ == old(resp).buf@.update(at as int, transfer_status(r.1@.error())),
            r.1@.access == (Access { apndp, rnw: RnW::W, a, data }),
            follows_policy(r.1@.access, r.1@.tries, self.swd.wait_retries),
            final(hw).trace() == old(hw).trace() + access_ops(
                self.swd.spi,
                r.1@.access,
                r.1@.tries,
            ),
            r.0 == (r.1@.error() is None),
    {
        let result = self.swd.write(hw, apndp, a, data);
        let ghost x = Access { apndp, rnw: RnW::W, a, data };
        let ghost tries = choose|tries: Seq<Attempt>| #[trigger]
            performed(
                self.swd.spi,
                x,
                self.swd.wait_retries,
                old(hw).trace(),
                hw.trace(),
                tries,
            ) && result == write_result(x, tries);
        let value = result.check(resp.mut_at(at));
        (value.is_some(), Ghost(Transaction { access: x, tries }))
    }
}

/// One more transfer after those of `txs`.
proof fn lemma_transactions_push(spi: crate::spi::SPI, txs: Seq<Transaction>, tx: Transaction)
    ensures
        transactions_ops(spi, txs.push(tx)) == transactions_ops(spi, txs) + access_ops(
            spi,
            tx.access,
            tx.tries,
        ),
        words_read(txs.push(tx)) == words_read(txs) + (if tx.error() is None {
            le32_bytes(tx.value())
        } else {
            Seq::empty()
        }),
{
    assert(txs.push(tx).drop_last() =~= txs);
}

/// Number of transfers that a block of `n` transfers makes ahead of its
/// rounds: one for reads from the access port, whose first read is posted.
/// A block of nothing posts nothing.
pub open spec fn block_lead(t: u8, n: nat) -> int {
    if n > 0 && request_reads(t) && request_port(t) == APnDP::AP {
        1
    } else {
        0
    }
}

impl DAP {
    /// What `DAP_TransferBlock` leaves behind, where `txs` are the transfers
    /// it made on the wire.
    ///
    /// The SWD lines go back to the SPI peripheral first. A block of reads
    /// from the access port posts one read ahead; if that fails, the block
    /// ends there and reports one transfer. Then the rounds follow, one
    /// transfer each, up to the first that fails. The answer holds the
    /// number of rounds made, the status of the last transfer, and the
    /// words read. A block of nothing makes no transfer and reports none.
    pub open spec fn block_done(
        &self,
        payload: Seq<u8>,
        before: Seq<Op>,
        after: Seq<Op>,
        txs: Seq<Transaction>,
        out: Seq<u8>,
    ) -> bool {
        let n = le16(payload[1], payload[2]) as nat;
        let t = payload[3];
        let words = payload.skip(4);
        let lead = block_lead(t, n);
        &&& after == before + restore_ops() + transactions_ops(self.swd.spi, txs)
        &&& all_lawful(txs, self.swd.wait_retries)
        &&& txs.len() >= lead
        &&& lead == 1 ==> txs[0].access == (Access {
            apndp: APnDP::AP,
            rnw: RnW::R,
            a: request_address(t),
            data: 0,
        })
        &&& if lead == 1 && txs[0].error() is Some {
            &&& txs.len() == 1
            &&& out == le16_bytes(1) + seq![transfer_status(txs[0].error())]
        } else {
            let body = txs.skip(lead);
            &&& body.len() <= n
            &&& forall|i: int|
                0 <= i < body.len() ==> (#[trigger] body[i]).access == block_access(t, n, words, i)
            &&& forall|i: int| 0 <= i < body.len() - 1 ==> (#[trigger] body[i]).error() is None
            &&& body.len() < n ==> body.len() > 0 && body.last().error() is Some
            &&& out == le16_bytes(body.len() as u16) + seq![
                if txs.len() == 0 {
                    0u8
                } else {
                    transfer_status(txs.last().error())
                },
            ] + (if request_reads(t) {
                words_read(body)
            } else {
                Seq::empty()
            })
        }
    }

    fn process_transfer_block<H: Board>(
        &self,
        hw: &mut H,
        mut req: Request,
        resp: &mut ResponseWriter,
    )
        requires
            old(resp).idx == 1,
            block_fits(req.data@, old(resp).buf@.len()),
        ensures
            final(final(resp).buf)@ == final(old(resp).buf)@,
            answered(
                old(resp).buf@,
                final(resp).buf@,
                final(resp).idx,
                final(resp).buf@.subrange(1, final(resp).idx as int),
            ),
            exists|txs: Seq<Transaction>| #[trigger]
                self.block_done(
                    req.data@,
                    old(hw).trace(),
                    final(hw).trace(),
                    txs,
                    final(resp).buf@.subrange(1, final(resp).idx as int),
                ),
    {
        let ghost payload = req.data@;
        let ghost words = payload.skip(4);
        let total = resp.buf.len();
        let _idx = req.next_u8();
        let ntransfers = req.next_u16();
        let transfer_req = req.next_u8();
        let apndp = (transfer_req & 0x01) != 0;
        let rnw = (transfer_req & 0x02) != 0;
        let a = (transfer_req & 0x0C) >> 2u8;
        let port: APnDP = apndp.into();
        let ghost n = ntransfers as nat;
        assert(req.data@ =~= words.skip(0));

        // The lines may have been taken for the pins by the host.
        Pins::swd_clk_spi(hw);
        Pins::swd_tx(hw);
        let ghost base = hw.trace();
        assert(base =~= old(hw).trace() + restore_ops());

        // Room for the count and the status.
        resp.write_u16(0);
        resp.write_u8(0);

        let ghost mut txs: Seq<Transaction> = Seq::empty();
        let ghost mut body: Seq<Transaction> = Seq::empty();
        let ghost lead: int = if ntransfers > 0 && rnw && apndp {
            1
        } else {
            0
        };
        assert(base =~= base + transactions_ops(self.swd.spi, txs));

        // Post the first read of the access port ahead.
        if ntransfers > 0 && rnw && apndp {
            let (value, Ghost(tx)) = self.checked_read(hw, APnDP::AP, a, resp, 3);
            proof {
                lemma_transactions_push(self.swd.spi, txs, tx);
                lemma_concat_associative(
                    base,
                    transactions_ops(self.swd.spi, txs),
                    access_ops(self.swd.spi, tx.access, tx.tries),
                );
                txs = txs.push(tx);
            }
            if value.is_none() {
                resp.write_u16_at(1, 1);
                proof {
                    let out = resp.buf@.subrange(1, resp.idx as int);
                    assert(resp.buf@.skip(resp.idx as int) =~= old(resp).buf@.skip(resp.idx as int));
                    assert(out =~= le16_bytes(1) + seq![transfer_status(txs[0].error())]);
                    assert(self.block_done(payload, old(hw).trace(), hw.trace(), txs, out));
                }
                return ;
            }
        }
        assert(txs.skip(lead) =~= body);
        assert(resp.buf@.skip(resp.idx as int) =~= old(resp).buf@.skip(resp.idx as int));

        let mut i: u16 = 0;
        let mut go = true;
        while go && i < ntransfers
            invariant
                i <= ntransfers == n,
                4 <= total == resp.buf@.len() == old(resp).buf@.len(),
                payload.len() >= 4,
                words == payload.skip(4),
                apndp == (transfer_req & 0x01 != 0),
                rnw == (transfer_req & 0x02 != 0),
                a == (transfer_req & 0x0C) >> 2u8,
                port == APnDP::of(apndp),
                lead == (if n > 0 && rnw && apndp {
                    1int
                } else {
                    0int
                }),
                rnw ==> total >= 4 + 4 * n,
                !rnw ==> words.len() >= 4 * n,
                !rnw && go ==> req.data@ == words.skip(4 * i),
                !go ==> i < n,
                txs.len() == lead + body.len(),
                txs.skip(lead) == body,
                lead == 1 ==> txs[0].access == (Access {
                    apndp: APnDP::AP,
                    rnw: RnW::R,
                    a,
                    data: 0,
                }) && txs[0].error() is None,
                body.len() == (if go {
                    i as int
                } else {
                    i + 1
                }),
                forall|k: int|
                    0 <= k < body.len() ==> (#[trigger] body[k]).access == block_access(
                        transfer_req,
                        n,
                        words,
                        k,
                    ),
                forall|k: int| 0 <= k < body.len() - 1 ==> (#[trigger] body[k]).error() is None,
                go ==> forall|k: int| 0 <= k < body.len() ==> (#[trigger] body[k]).error() is None,
                !go ==> body.last().error() is Some,
                all_lawful(txs, self.swd.wait_retries),
                hw.trace() == base + transactions_ops(self.swd.spi, txs),
                resp.idx == 4 + (if rnw {
                    words_read(body).len()
                } else {
                    0
                }),
                rnw ==> words_read(body).len() == 4 * (if go {
                    i as int
                } else {
                    i as int
                }),
                rnw ==> resp.buf@.subrange(4, resp.idx as int) == words_read(body),
                resp.buf@.skip(resp.idx as int) == old(resp).buf@.skip(resp.idx as int),
                resp.buf@[0] == old(resp).buf@[0],
                resp.buf@[3] == (if txs.len() == 0 {
                    0u8
                } else {
                    transfer_status(txs.last().error())
                }),
                final(resp.buf)@ == final(old(resp).buf)@,
            decreases (if go {
                1int
            } else {
                0int
            }) + ntransfers - i,
        {
            let ghost held = resp.buf@;
            let ghost sofar = words_read(body);
            if rnw {
                // The first read of the access port was posted, so the last
                // one takes the word from the read buffer.
                let (value, Ghost(tx)) = if apndp {
                    if i < ntransfers - 1 {
                        self.checked_read(hw, APnDP::AP, a, resp, 3)
                    } else {
                        self.checked_read(hw, APnDP::DP, 3, resp, 3)
                    }
                } else {
                    self.checked_read(hw, APnDP::DP, a, resp, 3)
                };
                proof {
                    lemma_transactions_push(self.swd.spi, txs, tx);
                    lemma_transactions_push(self.swd.spi, body, tx);
                    lemma_concat_associative(
                        base,
                        transactions_ops(self.swd.spi, txs),
                        access_ops(self.swd.spi, tx.access, tx.tries),
                    );
                    assert(txs.push(tx).skip(lead) =~= body.push(tx));
                    txs = txs.push(tx);
                    body = body.push(tx);
                    assert(resp.buf@.subrange(4, resp.idx as int) =~= held.subrange(
                        4,
                        resp.idx as int,
                    ));
                    assert(resp.buf@.skip(resp.idx as int) =~= held.skip(resp.idx as int));
                }
                match value {
                    Some(v) => {
                        let ghost before_word = resp.buf@;
                        resp.write_u32(v);
                        proof {
                            assert(resp.buf@.subrange(4, resp.idx as int) =~= sofar + le32_bytes(
                                v,
                            ));
                            assert(resp.buf@.skip(resp.idx as int) =~= before_word.skip(
                                resp.idx as int,
                            ));
                            lemma_alike_later(
                                before_word,
                                old(resp).buf@,
                                resp.idx - 4,
                                resp.idx as int,
                            );
                        }
                        i += 1;
                    },
                    None => {
                        proof {
                            assert(sofar + Seq::<u8>::empty() =~= sofar);
                        }
                        go = false;
                    },
                }
            } else {
                assert(words.skip(4 * i).skip(4) =~= words.skip(4 * (i + 1)));
                let write_value = req.next_u32();
                let (done, Ghost(tx)) = self.checked_write(hw, port, a, write_value, resp, 3);
                proof {
                    lemma_transactions_push(self.swd.spi, txs, tx);
                    lemma_concat_associative(
                        base,
                        transactions_ops(self.swd.spi, txs),
                        access_ops(self.swd.spi, tx.access, tx.tries),
                    );
                    assert(txs.push(tx).skip(lead) =~= body.push(tx));
                    txs = txs.push(tx);
                    body = body.push(tx);
                    assert(resp.buf@.skip(resp.idx as int) =~= held.skip(resp.idx as int));
                }
                if done {
                    i += 1;
                } else {
                    go = false;
                }
            }
        }

        // Tell the host how far the block got: the round that failed counts.
        let rounds: u16 = if go {
            i
        } else {
            i + 1
        };
        resp.write_u16_at(1, rounds);
        proof {
            let out = resp.buf@.subrange(1, resp.idx as int);
            let status = if txs.len() == 0 {
                0u8
            } else {
                transfer_status(txs.last().error())
            };
            let data = if rnw {
                words_read(body)
            } else {
                Seq::<u8>::empty()
            };
            assert(resp.buf@.skip(resp.idx as int) =~= old(resp).buf@.skip(resp.idx as int));
            assert(out =~= le16_bytes(rounds) + seq![status] + data);
            assert(rounds == body.len());
            assert(self.block_done(payload, old(hw).trace(), hw.trace(), txs, out));
        }
    }
}

/// Whether a transfer request byte asks for the value read to be matched
/// against a value that follows it.
pub open spec fn request_matches(t: u8) -> bool {
    t & 0x10 != 0
}

/// Whether a transfer request byte, on a write, gives a new match mask
/// rather than a word to write.
pub open spec fn request_sets_mask(t: u8) -> bool {
    t & 0x20 != 0
}

/// A read of register `a` of the given port.
pub open spec fn read_of(port: APnDP, a: u8) -> Access {
    Access { apndp: port, rnw: RnW::R, a, data: 0 }
}

/// Where a `DAP_Transfer` command stands between two transfers of its list.
pub struct Progress {
    /// Number of bytes of the list that have been read.
    pub pos: int,
    /// The mask applied to a value before it is matched.
    pub mask: u32,
    /// The words read so far, as they go into the response.
    pub data: Seq<u8>,
    /// The status of the last transfer on the wire.
    pub status: u8,
    /// Whether a value did not match in the end.
    pub mismatch: bool,
    /// Whether the command is over before the end of the list.
    pub stopped: bool,
}

/// The value at hand before repeat `j` of a read that is being matched:
/// `first` before any repeat, else what the repeat before brought.
pub open spec fn held_before(first: u32, repeats: Seq<Transaction>, j: int) -> u32 {
    if j == 0 {
        first
    } else {
        repeats[j - 1].value()
    }
}

/// Whether the last of the repeats failed on the wire.
pub open spec fn repeat_failed(repeats: Seq<Transaction>) -> bool {
    repeats.len() > 0 && repeats.last().error() is Some
}

/// Whether the value does not match after the repeats: the last repeat
/// failed, or the value at hand, masked, is not the target.
pub open spec fn repeat_mismatch(
    mask: u32,
    target: u32,
    first: u32,
    repeats: Seq<Transaction>,
) -> bool {
    repeat_failed(repeats) || (held_before(first, repeats, repeats.len() as int) & mask) != target
}

/// Whether `repeats` are the reads that a value match makes after the first
/// read brought `first`: the same register is read again while the value
/// at hand does not match, at most `limit` times, and not after a read
/// that failed.
pub open spec fn repeats_valid(
    port: APnDP,
    a: u8,
    mask: u32,
    target: u32,
    first: u32,
    repeats: Seq<Transaction>,
    limit: usize,
) -> bool {
    &&& repeats.len() <= limit
    &&& forall|j: int| 0 <= j < repeats.len() ==> (#[trigger] repeats[j]).access == read_of(port, a)
    &&& forall|j: int|
        0 <= j < repeats.len() ==> (#[trigger] held_before(first, repeats, j) & mask) != target
    &&& forall|j: int| 0 <= j < repeats.len() - 1 ==> (#[trigger] repeats[j]).error() is None
    &&& !repeat_failed(repeats) && repeat_mismatch(mask, target, first, repeats) ==> repeats.len()
        == limit
}

/// Number of transfers on the wire that the first read of a register
/// takes when none fails: a read of the access port is posted, and the
/// read buffer of the debug port is read after it for the word.
pub open spec fn first_reads(port: APnDP) -> nat {
    match port {
        APnDP::AP => 2,
        APnDP::DP => 1,
    }
}

/// Whether `txs` open with the first read of register `a`, made in full or
/// cut short by a failure.
pub open spec fn opens_with_read(port: APnDP, a: u8, txs: Seq<Transaction>) -> bool {
    &&& txs.len() >= 1
    &&& txs[0].access == read_of(port, a)
    &&& port == APnDP::AP && txs[0].error() is None ==> txs.len() >= 2 && txs[1].access
        == read_of(APnDP::DP, 3)
}

/// Whether the first read of a register brought a word.
pub open spec fn first_read_went_through(port: APnDP, txs: Seq<Transaction>) -> bool {
    txs[0].error() is None && (port == APnDP::AP ==> txs[1].error() is None)
}

/// Whether the packets have room for the transfers of a list that all go
/// through: each takes its request byte; a write, a mask and a value match
/// take four bytes more from the request, and any other read puts four
/// bytes into the response.
pub open spec fn transfer_fits(list: Seq<u8>, n: nat, room: int) -> bool
    decreases n,
{
    n == 0 || (list.len() >= 1 && if request_reads(list[0]) && !request_matches(list[0]) {
        room >= 4 && transfer_fits(list.skip(1), (n - 1) as nat, room - 4)
    } else {
        list.len() >= 5 && transfer_fits(list.skip(5), (n - 1) as nat, room)
    })
}

/// Trace of the transfers of the given steps, one step after the other.
pub open spec fn steps_ops(spi: crate::spi::SPI, steps: Seq<Seq<Transaction>>) -> Seq<Op>
    decreases steps.len(),
{
    if steps.len() == 0 {
        Seq::empty()
    } else {
        steps_ops(spi, steps.drop_last()) + transactions_ops(spi, steps.last())
    }
}

/// Every transfer of every step was retried as the policy says.
pub open spec fn steps_lawful(steps: Seq<Seq<Transaction>>, retries: usize) -> bool {
    forall|i: int| 0 <= i < steps.len() ==> all_lawful(#[trigger] steps[i], retries)
}

impl DAP {
    /// Where the command stands after one more transfer of the list,
    /// where `txs` are the transfers that it made on the wire; nothing, if
    /// `txs` are not what that transfer of the list makes.
    ///
    /// A write with the mask flag takes the word as the new match mask and
    /// makes no transfer. Any other write writes the word. A read reads the
    /// register, and either puts the word into the response or, for a value
    /// match, reads again until the masked value is the target or the
    /// repeats run out. A transfer on the wire that fails ends the command,
    /// and so does a value that does not match.
    pub open spec fn transfer_step(
        &self,
        list: Seq<u8>,
        p: Progress,
        txs: Seq<Transaction>,
    ) -> Option<Progress> {
        let t = list[p.pos];
        let port = request_port(t);
        let a = request_address(t);
        let word = le32(
            list[p.pos + 1],
            list[p.pos + 2],
            list[p.pos + 3],
            list[p.pos + 4],
        ) as u32;
        if !request_reads(t) {
            if request_sets_mask(t) {
                if txs.len() == 0 {
                    Some(Progress { pos: p.pos + 5, mask: word, ..p })
                } else {
                    None
                }
            } else if txs.len() == 1 && txs[0].access == (Access {
                apndp: port,
                rnw: RnW::W,
                a,
                data: word,
            }) {
                Some(
                    Progress {
                        pos: p.pos + 5,
                        status: transfer_status(txs[0].error()),
                        stopped: txs[0].error() is Some,
                        ..p
                    },
                )
            } else {
                None
            }
        } else if !opens_with_read(port, a, txs) {
            None
        } else if !first_read_went_through(port, txs) {
            if txs.len() == (if txs[0].error() is Some {
                1nat
            } else {
                2nat
            }) {
                Some(
                    Progress {
                        pos: p.pos + 1,
                        status: transfer_status(txs.last().error()),
                        stopped: true,
                        ..p
                    },
                )
            } else {
                None
            }
        } else {
            let k = first_reads(port);
            let first = txs[k - 1].value();
            if !request_matches(t) {
                if txs.len() == k {
                    Some(
                        Progress {
                            pos: p.pos + 1,
                            data: p.data + le32_bytes(first),
                            status: 1,
                            ..p
                        },
                    )
                } else {
                    None
                }
            } else {
                let repeats = txs.skip(k as int);
                if repeats_valid(port, a, p.mask, word, first, repeats, self.match_retries) {
                    Some(
                        Progress {
                            pos: p.pos + 5,
                            status: transfer_status(txs.last().error()),
                            mismatch: repeat_mismatch(p.mask, word, first, repeats),
                            stopped: repeat_mismatch(p.mask, word, first, repeats),
                            ..p
                        },
                    )
                } else {
                    None
                }
            }
        }
    }

    /// Where the command stands after the given steps, one for each
    /// transfer of the list from its start; nothing, if the steps are not
    /// what the list asks for, or go on after the command is over.
    pub open spec fn transfer_run(&self, list: Seq<u8>, steps: Seq<Seq<Transaction>>) -> Option<
        Progress,
    >
        decreases steps.len(),
    {
        if steps.len() == 0 {
            Some(
                Progress {
                    pos: 0,
                    mask: 0xFFFF_FFFF,
                    data: Seq::empty(),
                    status: 0,
                    mismatch: false,
                    stopped: false,
                },
            )
        } else {
            match self.transfer_run(list, steps.drop_last()) {
                None => None,
                Some(p) => if p.stopped {
                    None
                } else {
                    self.transfer_step(list, p, steps.last())
                },
            }
        }
    }

    /// What `DAP_Transfer` leaves behind, where `steps` holds, for each
    /// transfer of the list that was begun, the transfers it made on the
    /// wire.
    ///
    /// The SWD lines go back to the SPI peripheral first. The transfers of
    /// the list follow until the list or the command is over. The answer
    /// holds the number of transfers begun, then the status of the last
    /// transfer on the wire, with bit 4 set where a value did not match,
    /// and then the words read.
    pub open spec fn transfer_done(
        &self,
        payload: Seq<u8>,
        before: Seq<Op>,
        after: Seq<Op>,
        steps: Seq<Seq<Transaction>>,
        out: Seq<u8>,
    ) -> bool {
        let n = payload[1] as nat;
        let list = payload.skip(2);
        &&& steps.len() <= n
        &&& steps_lawful(steps, self.swd.wait_retries)
        &&& after == before + restore_ops() + steps_ops(self.swd.spi, steps)
        &&& match self.transfer_run(list, steps) {
            None => false,
            Some(p) => {
                &&& steps.len() < n ==> p.stopped
                &&& out == seq![
                    steps.len() as u8,
                    if p.mismatch {
                        p.status | 0x10u8
                    } else {
                        p.status
                    },
                ] + p.data
            },
        }
    }
}

/// One more step after those of `steps`.
proof fn lemma_steps_push(
    dap: &DAP,
    list: Seq<u8>,
    steps: Seq<Seq<Transaction>>,
    txs: Seq<Transaction>,
)
    ensures
        steps_ops(dap.swd.spi, steps.push(txs)) == steps_ops(dap.swd.spi, steps)
            + transactions_ops(dap.swd.spi, txs),
        dap.transfer_run(list, steps.push(txs)) == (match dap.transfer_run(list, steps) {
            None => None,
            Some(p) => if p.stopped {
                None
            } else {
                dap.transfer_step(list, p, txs)
            },
        }),
{
    assert(steps.push(txs).drop_last() =~= steps);
}

impl DAP {
    /// Reads register `a` again until its masked value is `target`, at most
    /// as often as the processor is set to, starting from the value `first`
    /// at hand. Returns whether the value matches in the end.
    fn match_value<H: Board>(
        &self,
        hw: &mut H,
        port: APnDP,
        a: u8,
        mask: u32,
        target: u32,
        first: u32,
        resp: &mut ResponseWriter,
    ) -> (r: (bool, Ghost<Seq<Transaction>>))
        requires
            2 < old(resp).buf@.len(),
        ensures
            final(final(resp).buf)@ == final(old(resp).buf)@,
            final(resp).idx == old(resp).idx,
            final(resp).buf@ == (if r.1@.len() > 0 {
                old(resp).buf@.update(2, transfer_status(r.1@.last().error()))
            } else {
                old(resp).buf@
            }),
            repeats_valid(port, a, mask, target, first, r.1@, self.match_retries),
            r.0 == !repeat_mismatch(mask, target, first, r.1@),
            all_lawful(r.1@, self.swd.wait_retries),
            final(hw).trace() == old(hw).trace() + transactions_ops(self.swd.spi, r.1@),
    {
        let mut value = first;
        let mut tries: usize = 0;
        let mut failed = false;
        let ghost mut repeats: Seq<Transaction> = Seq::empty();
        assert(hw.trace() =~= old(hw).trace() + transactions_ops(self.swd.spi, repeats));
        while (value & mask) != target && tries < self.match_retries && !failed
            invariant
                2 < resp.buf@.len() == old(resp).buf@.len(),
                tries <= self.match_retries,
                repeats.len() == tries,
                failed == repeat_failed(repeats),
                !failed ==> value == held_before(first, repeats, repeats.len() as int),
                forall|j: int|
                    0 <= j < repeats.len() ==> (#[trigger] repeats[j]).access == read_of(port, a),
                forall|j: int|
                    0 <= j < repeats.len() ==> (#[trigger] held_before(first, repeats, j) & mask)
                        != target,
                forall|j: int|
                    0 <= j < repeats.len() - 1 ==> (#[trigger] repeats[j]).error() is None,
                all_lawful(repeats, self.swd.wait_retries),
                hw.trace() == old(hw).trace() + transactions_ops(self.swd.spi, repeats),
                resp.idx == old(resp).idx,
                resp.buf@ == (if repeats.len() > 0 {
                    old(resp).buf@.update(2, transfer_status(repeats.last().error()))
                } else {
                    old(resp).buf@
                }),
                final(resp.buf)@ == final(old(resp).buf)@,
            decreases self.match_retries - tries + (if failed {
                0int
            } else {
                1int
            }),
        {
            tries += 1;
            let (read, Ghost(tx)) = self.checked_read(hw, port, a, resp, 2);
            proof {
                let grown = repeats.push(tx);
                lemma_transactions_push(self.swd.spi, repeats, tx);
                lemma_concat_associative(
                    old(hw).trace(),
                    transactions_ops(self.swd.spi, repeats),
                    access_ops(self.swd.spi, tx.access, tx.tries),
                );
                assert forall|j: int| 0 <= j < grown.len() implies (#[trigger] held_before(
                    first,
                    grown,
                    j,
                ) & mask) != target by {
                    if j < repeats.len() {
                        assert(held_before(first, grown, j) == held_before(first, repeats, j));
                    } else {
                        assert(held_before(first, grown, j) == value);
                    }
                }
                assert(resp.buf@ =~= old(resp).buf@.update(2, transfer_status(tx.error())));
                repeats = grown;
            }
            match read {
                Some(v) => {
                    value = v;
                },
                None => {
                    failed = true;
                },
            }
        }
        (!failed && (value & mask) == target, Ghost(repeats))
    }

    /// Makes the next transfer of the list. Returns whether the command goes
    /// on after it.
    #[verifier::rlimit(60)]
    fn transfer_one<H: Board>(
        &self,
        hw: &mut H,
        req: &mut Request,
        resp: &mut ResponseWriter,
        mask: &mut u32,
        Ghost(list): Ghost<Seq<u8>>,
        Ghost(p): Ghost<Progress>,
    ) -> (r: (bool, Ghost<Seq<Transaction>>))
        requires
            0 <= p.pos < list.len(),
            old(req).data@ == list.skip(p.pos),
            3 <= old(resp).idx <= old(resp).buf@.len(),
            *old(mask) == p.mask,
            !p.stopped,
            !p.mismatch,
            old(resp).buf@[2] == p.status,
            old(resp).buf@.subrange(3, old(resp).idx as int) == p.data,
            if request_reads(list[p.pos]) && !request_matches(list[p.pos]) {
                old(resp).idx + 4 <= old(resp).buf@.len()
            } else {
                p.pos + 5 <= list.len()
            },
        ensures
            final(final(resp).buf)@ == final(old(resp).buf)@,
            final(req).command == old(req).command,
            final(resp).buf@.len() == old(resp).buf@.len(),
            final(resp).buf@[0] == old(resp).buf@[0],
            final(resp).idx >= old(resp).idx,
            final(resp).buf@.skip(final(resp).idx as int) == old(resp).buf@.skip(
                final(resp).idx as int,
            ),
            all_lawful(r.1@, self.swd.wait_retries),
            final(hw).trace() == old(hw).trace() + transactions_ops(self.swd.spi, r.1@),
            self.transfer_step(list, p, r.1@) is Some,
            ({
                let q = self.transfer_step(list, p, r.1@)->0;
                &&& r.0 == !q.stopped
                &&& final(req).data@ == list.skip(q.pos)
                &&& *final(mask) == q.mask
                &&& 3 <= final(resp).idx <= final(resp).buf@.len()
                &&& final(resp).buf@.subrange(3, final(resp).idx as int) == q.data
                &&& final(resp).buf@[1] == old(resp).buf@[1]
                &&& final(resp).buf@[2] == (if q.mismatch {
                    q.status | 0x10u8
                } else {
                    q.status
                })
            }),
    {
        let ghost t0 = hw.trace();
        let ghost held = resp.buf@;
        let ghost mut txs: Seq<Transaction> = Seq::empty();
        assert(list.skip(p.pos).skip(1) =~= list.skip(p.pos + 1));
        let transfer_req = req.next_u8();
        assert(transfer_req == list[p.pos]);
        let apndp = (transfer_req & 0x01) != 0;
        let rnw = (transfer_req & 0x02) != 0;
        let a = (transfer_req & 0x0C) >> 2u8;
        let vmatch = (transfer_req & 0x10) != 0;
        let mmask = (transfer_req & 0x20) != 0;
        let port: APnDP = apndp.into();
        assert(t0 =~= t0 + transactions_ops(self.swd.spi, txs));

        if rnw {
            // A read of the access port is posted: issue it, then read the
            // word from the read buffer of the debug port.
            let (mut read, Ghost(tx)) = self.checked_read(hw, port, a, resp, 2);
            proof {
                lemma_transactions_push(self.swd.spi, txs, tx);
                lemma_concat_associative(
                    t0,
                    transactions_ops(self.swd.spi, txs),
                    access_ops(self.swd.spi, tx.access, tx.tries),
                );
                txs = txs.push(tx);
            }
            if apndp && read.is_some() {
                let (word, Ghost(tx)) = self.checked_read(hw, APnDP::DP, 3, resp, 2);
                proof {
                    lemma_transactions_push(self.swd.spi, txs, tx);
                    lemma_concat_associative(
                        t0,
                        transactions_ops(self.swd.spi, txs),
                        access_ops(self.swd.spi, tx.access, tx.tries),
                    );
                    txs = txs.push(tx);
                }
                read = word;
            }
            assert(opens_with_read(port, a, txs));
            assert(resp.buf@ =~= held.update(2, transfer_status(txs.last().error())));
            let first = match read {
                Some(v) => v,
                None => {
                    assert(resp.buf@.subrange(3, resp.idx as int) =~= p.data);
                    assert(resp.buf@.skip(resp.idx as int) =~= held.skip(resp.idx as int));
                    return (false, Ghost(txs));
                },
            };
            assert(first_read_went_through(port, txs));
            assert(txs.len() == first_reads(port));

            if vmatch {
                // Read again as long as the value does not match. The same
                // register is read, so the posting matters little.
                assert(list.skip(p.pos + 1).skip(4) =~= list.skip(p.pos + 5));
                let target = req.next_u32();
                let ghost opening = txs;
                let ghost mid = hw.trace();
                let (matched, Ghost(repeats)) = self.match_value(
                    hw,
                    port,
                    a,
                    *mask,
                    target,
                    first,
                    resp,
                );
                proof {
                    txs = opening + repeats;
                    lemma_transactions_concat(self.swd.spi, opening, repeats);
                    lemma_concat_associative(
                        t0,
                        transactions_ops(self.swd.spi, opening),
                        transactions_ops(self.swd.spi, repeats),
                    );
                    assert(txs.skip(opening.len() as int) =~= repeats);
                    assert(txs[0] == opening[0]);
                    if port == APnDP::AP {
                        assert(txs[1] == opening[1]);
                    }
                    assert(txs[opening.len() - 1] == opening[opening.len() - 1]);
                    assert(resp.buf@ =~= held.update(2, transfer_status(txs.last().error())));
                    assert(resp.buf@.subrange(3, resp.idx as int) =~= p.data);
                }
                if !matched {
                    // Tell the host that the value did not match, and end
                    // the command.
                    let status = resp.read_u8_at(2);
                    resp.write_u8_at(2, status | (1u8 << 4u8));
                    proof {
                        assert(1u8 << 4u8 == 0x10u8) by (bit_vector);
                        assert(resp.buf@.subrange(3, resp.idx as int) =~= p.data);
                        assert(resp.buf@.skip(resp.idx as int) =~= held.skip(resp.idx as int));
                    }
                    return (false, Ghost(txs));
                }
                assert(resp.buf@.skip(resp.idx as int) =~= held.skip(resp.idx as int));
            } else {
                resp.write_u32(first);
                assert(resp.buf@.subrange(3, resp.idx as int) =~= p.data + le32_bytes(first));
                assert(resp.buf@.skip(resp.idx as int) =~= held.skip(resp.idx as int));
            }
            (true, Ghost(txs))
        } else {
            assert(list.skip(p.pos + 1).skip(4) =~= list.skip(p.pos + 5));
            if mmask {
                // A write with the mask flag only sets the mask.
                *mask = req.next_u32();
                assert(resp.buf@.subrange(3, resp.idx as int) =~= p.data);
                return (true, Ghost(txs));
            }
            let write_value = req.next_u32();
            let (done, Ghost(tx)) = self.checked_write(hw, port, a, write_value, resp, 2);
            proof {
                lemma_transactions_push(self.swd.spi, txs, tx);
                lemma_concat_associative(
                    t0,
                    transactions_ops(self.swd.spi, txs),
                    access_ops(self.swd.spi, tx.access, tx.tries),
                );
                txs = txs.push(tx);
                assert(resp.buf@.subrange(3, resp.idx as int) =~= p.data);
                assert(resp.buf@.skip(resp.idx as int) =~= held.skip(resp.idx as int));
            }
            (done, Ghost(txs))
        }
    }

    fn process_transfer<H: Board>(&self, hw: &mut H, mut req: Request, resp: &mut ResponseWriter)
        requires
            old(resp).idx == 1,
            old(resp).buf@.len() >= 3,
            req.data@.len() >= 2,
            transfer_fits(req.data@.skip(2), req.data@[1] as nat, old(resp).buf@.len() - 3),
        ensures
            final(final(resp).buf)@ == final(old(resp).buf)@,
            answered(
                old(resp).buf@,
                final(resp).buf@,
                final(resp).idx,
                final(resp).buf@.subrange(1, final(resp).idx as int),
            ),
            exists|steps: Seq<Seq<Transaction>>| #[trigger]
                self.transfer_done(
                    req.data@,
                    old(hw).trace(),
                    final(hw).trace(),
                    steps,
                    final(resp).buf@.subrange(1, final(resp).idx as int),
                ),
    {
        let ghost payload = req.data@;
        let ghost list = payload.skip(2);
        let total = resp.buf.len();
        let _idx = req.next_u8();
        let ntransfers = req.next_u8();
        let ghost n = ntransfers as nat;
        let mut match_mask: u32 = 0xFFFF_FFFF;
        assert(req.data@ =~= list.skip(0));

        // The lines may have been taken for the pins by the host.
        Pins::swd_clk_spi(hw);
        Pins::swd_tx(hw);
        let ghost base = hw.trace();
        assert(base =~= old(hw).trace() + restore_ops());

        // Room for the count and the status, kept up to date on the way.
        resp.write_u16(0);

        let ghost mut steps: Seq<Seq<Transaction>> = Seq::empty();
        let ghost mut p = self.transfer_run(list, steps)->0;
        assert(base =~= base + steps_ops(self.swd.spi, steps));
        assert(resp.buf@.subrange(3, resp.idx as int) =~= p.data);
        assert(list.skip(0) =~= list);
        assert(resp.buf@.skip(resp.idx as int) =~= old(resp).buf@.skip(resp.idx as int));

        let mut i: u8 = 0;
        let mut go = true;
        while go && i < ntransfers
            invariant
                i <= ntransfers == n,
                3 <= resp.idx <= resp.buf@.len() == total == old(resp).buf@.len(),
                list == payload.skip(2),
                steps.len() == (if go {
                    i as int
                } else {
                    i + 1
                }),
                !go ==> i < n,
                steps_lawful(steps, self.swd.wait_retries),
                hw.trace() == base + steps_ops(self.swd.spi, steps),
                self.transfer_run(list, steps) == Some(p),
                p.stopped == !go,
                go ==> !p.mismatch,
                go ==> 0 <= p.pos <= list.len() && req.data@ == list.skip(p.pos),
                go ==> transfer_fits(list.skip(p.pos), (n - i) as nat, total - resp.idx),
                match_mask == p.mask,
                resp.buf@[0] == old(resp).buf@[0],
                resp.buf@[1] == steps.len() as u8,
                resp.buf@[2] == (if p.mismatch {
                    p.status | 0x10u8
                } else {
                    p.status
                }),
                resp.buf@.subrange(3, resp.idx as int) == p.data,
                resp.buf@.skip(resp.idx as int) == old(resp).buf@.skip(resp.idx as int),
                final(resp.buf)@ == final(old(resp).buf)@,
            decreases (if go {
                1int
            } else {
                0int
            }) + ntransfers - i,
        {
            // Tell the host how far the command got.
            resp.write_u8_at(1, i + 1);
            assert(resp.buf@.subrange(3, resp.idx as int) =~= p.data);
            let ghost marked = resp.buf@;
            assert(marked.skip(resp.idx as int) =~= old(resp).buf@.skip(resp.idx as int));
            let ghost rest = list.skip(p.pos);
            let ghost idx0 = resp.idx;
            assert(rest[0] == list[p.pos]);
            let ghost before = hw.trace();
            let (more, Ghost(txs)) = self.transfer_one(
                hw,
                &mut req,
                resp,
                &mut match_mask,
                Ghost(list),
                Ghost(p),
            );
            proof {
                let q = self.transfer_step(list, p, txs)->0;
                assert(resp.buf@.skip(resp.idx as int) =~= old(resp).buf@.skip(
                    resp.idx as int,
                )) by {
                    assert forall|k: int| resp.idx <= k < resp.buf@.len() implies resp.buf@[k]
                        == old(resp).buf@[k] by {
                        assert(resp.buf@[k] == resp.buf@.skip(resp.idx as int)[k - resp.idx]);
                        assert(marked[k] == marked.skip(resp.idx as int)[k - resp.idx]);
                        assert(marked[k] == marked.skip(idx0 as int)[k - idx0]);
                        assert(old(resp).buf@[k] == old(resp).buf@.skip(idx0 as int)[k - idx0]);
                    }
                }
                lemma_steps_push(self, list, steps, txs);
                lemma_concat_associative(
                    base,
                    steps_ops(self.swd.spi, steps),
                    transactions_ops(self.swd.spi, txs),
                );
                let grown = steps.push(txs);
                assert forall|k: int| 0 <= k < grown.len() implies all_lawful(
                    #[trigger] grown[k],
                    self.swd.wait_retries,
                ) by {
                    if k < steps.len() {
                        assert(grown[k] == steps[k]);
                    }
                }
                if more {
                    assert(transfer_fits(rest, (n - i) as nat, total - idx0));
                    assert(resp.buf@.subrange(3, resp.idx as int).len() == resp.idx - 3);
                    if request_reads(rest[0]) && !request_matches(rest[0]) {
                        assert(q.pos == p.pos + 1);
                        assert(q.data.len() == p.data.len() + 4);
                        assert(rest.skip(1) =~= list.skip(q.pos));
                    } else {
                        assert(q.pos == p.pos + 5);
                        assert(q.data == p.data);
                        assert(rest.skip(5) =~= list.skip(q.pos));
                    }
                }
                steps = grown;
                p = q;
            }
            if more {
                i += 1;
            } else {
                go = false;
            }
        }
        proof {
            let out = resp.buf@.subrange(1, resp.idx as int);
            assert(out =~= seq![resp.buf@[1], resp.buf@[2]] + p.data);
            assert(self.transfer_done(payload, old(hw).trace(), hw.trace(), steps, out));
        }
    }
}

/// The transfers of `first`, then those of `second`.
proof fn lemma_transactions_concat(
    spi: crate::spi::SPI,
    first: Seq<Transaction>,
    second: Seq<Transaction>,
)
    ensures
        transactions_ops(spi, first + second) == transactions_ops(spi, first) + transactions_ops(
            spi,
            second,
        ),
    decreases second.len(),
{
    if second.len() == 0 {
        assert(first + second =~= first);
        assert(transactions_ops(spi, first) + Seq::<Op>::empty() =~= transactions_ops(spi, first));
    } else {
        let all = first + second;
        assert(all.drop_last() =~= first + second.drop_last());
        assert(all.last() == second.last());
        lemma_transactions_concat(spi, first, second.drop_last());
        lemma_concat_associative(
            transactions_ops(spi, first),
            transactions_ops(spi, second.drop_last()),
            access_ops(spi, second.last().access, second.last().tries),
        );
    }
}

/// What the wire and the SPI peripheral carried back while a command was
/// processed, as far as the response does not hold it: of each kind what
/// the command's handler names, and nothing for the other commands.
pub struct Witness {
    /// The tries of the write of `DAP_WriteABORT`.
    pub tries: Seq<Attempt>,
    /// The transfers of `DAP_TransferBlock`.
    pub block: Seq<Transaction>,
    /// The transfers of `DAP_Transfer`, for each transfer of its list.
    pub steps: Seq<Seq<Transaction>>,
    /// What came in during the exchange of `DAP_JTAG_Sequence` through the
    /// SPI peripheral.
    pub bulk_rx: Seq<u8>,
    /// The index in its ring at which the trace receiver stood, for the
    /// commands that ask it.
    pub head: usize,
}

impl DAP {
    /// Whether a request can be processed with a response packet of
    /// `packet` bytes: the request holds what its command reads, the
    /// response has room for what the command answers where all goes
    /// through, and the numbers in the request are such that the command
    /// can be carried out.
    pub open spec fn accepts(&self, report: Seq<u8>, packet: nat, version: DAPVersion) -> bool {
        let p = report.skip(1);
        &&& packet >= 1
        &&& match Command::of(report[0]) {
            Command::DAP_Info => p.len() >= 1 && packet >= 1 + info_out(
                p[0],
                version,
                self.firmware_version@,
            ).len(),
            Command::DAP_HostStatus => p.len() >= 2 && packet >= 2,
            Command::DAP_Connect => p.len() >= 1 && packet >= 2,
            Command::DAP_Disconnect => packet >= 2,
            Command::DAP_WriteABORT => packet >= 2 && (self.mode is Some ==> p.len() >= 5),
            Command::DAP_Delay => p.len() >= 2 && packet >= 2,
            Command::DAP_ResetTarget => packet >= 3,
            Command::DAP_SWJ_Pins => p.len() >= 6 && packet >= 2 && 42 * le32(
                p[2],
                p[3],
                p[4],
                p[5],
            ) <= u32::MAX,
            Command::DAP_SWJ_Clock => p.len() >= 4 && packet >= 2,
            Command::DAP_SWJ_Sequence => p.len() >= 1 && packet >= 2,
            Command::DAP_SWD_Configure => p.len() >= 1 && packet >= 2,
            Command::DAP_SWO_Transport => p.len() >= 1 && packet >= 2,
            Command::DAP_SWO_Mode => p.len() >= 1 && packet >= 2,
            Command::DAP_SWO_Baudrate => p.len() >= 4 && packet >= 5,
            Command::DAP_SWO_Control => p.len() >= 1 && packet >= 2,
            Command::DAP_SWO_Status => packet >= 6,
            Command::DAP_SWO_ExtendedStatus => packet >= 14,
            Command::DAP_SWO_Data => p.len() >= 2 && packet >= 4,
            Command::DAP_JTAG_Sequence => packet >= 2 && (self.mode == Some(DAPMode::JTAG)
                ==> p.len() <= packet),
            Command::DAP_TransferConfigure => p.len() >= 5 && packet >= 2,
            Command::DAP_Transfer => p.len() >= 2 && packet >= 3 && transfer_fits(
                p.skip(2),
                p[1] as nat,
                packet - 3,
            ),
            Command::DAP_TransferBlock => block_fits(p, packet),
            Command::DAP_TransferAbort => true,
            Command::Unimplemented => true,
        }
    }

    /// What processing a request leaves behind: `self` is the processor
    /// before and `after` the processor after it, `packet` the length of
    /// the response packet, `before` and `then` the board's trace before and
    /// after it, and `response` the response.
    ///
    /// The response opens with the opcode of the command and goes on with
    /// what the command answers. `DAP_TransferAbort` has no response, and
    /// a command that the probe does not know is answered with the opcode
    /// of `Unimplemented` alone.
    pub open spec fn command_done(
        &self,
        after: DAP,
        report: Seq<u8>,
        version: DAPVersion,
        packet: nat,
        before: Seq<Op>,
        then: Seq<Op>,
        response: Seq<u8>,
        w: Witness,
    ) -> bool {
        let command = Command::of(report[0]);
        let p = report.skip(1);
        let out = response.skip(1);
        &&& command != Command::DAP_TransferAbort ==> response.len() >= 1 && response[0]
            == command.spec_code()
        &&& match command {
            Command::DAP_Info => {
                &&& after == *self
                &&& then == before
                &&& out == info_out(p[0], version, self.firmware_version@)
            },
            Command::DAP_HostStatus => {
                &&& after == *self
                &&& then == before + host_status_ops(p[0], p[1])
                &&& out == seq![0u8]
            },
            Command::DAP_Connect => {
                &&& after == (match connect_mode(p[0]) {
                    Some(mode) => DAP { mode: Some(mode), ..*self },
                    None => *self,
                })
                &&& then == before + self.connect_ops(p[0])
                &&& out == seq![
                    match connect_mode(p[0]) {
                        Some(DAPMode::SWD) => 1u8,
                        Some(DAPMode::JTAG) => 2u8,
                        None => 0u8,
                    },
                ]
            },
            Command::DAP_Disconnect => {
                &&& after == (DAP { mode: None, ..*self })
                &&& then == before + self.disconnect_ops()
                &&& out == seq![DAP_OK]
            },
            Command::DAP_WriteABORT => {
                &&& after == *self
                &&& if self.mode is None {
                    then == before && out == seq![DAP_ERROR]
                } else {
                    self.abort_done(le32(p[1], p[2], p[3], p[4]) as u32, before, then, w.tries, out)
                }
            },
            Command::DAP_Delay => {
                &&& after == *self
                &&& then == before.push(Op::Spin((48 * le16(p[0], p[1])) as u32))
                &&& out == seq![DAP_OK]
            },
            Command::DAP_ResetTarget => {
                &&& after == *self
                &&& then == before
                &&& out == seq![DAP_OK, 0u8]
            },
            Command::DAP_SWJ_Pins => {
                &&& after == *self
                &&& out.len() == 1
                &&& out[0] & 0x70 == 0x20
                &&& then == before + swj_pins_ops(
                    self.mode,
                    p[0],
                    p[1],
                    le32(p[2], p[3], p[4], p[5]) as u32,
                    out[0],
                )
            },
            Command::DAP_SWJ_Clock => {
                let clock = le32(p[0], p[1], p[2], p[3]) as u32;
                &&& after == self.swj_clock_set(clock)
                &&& then == before + self.swj_clock_ops(clock)
                &&& out == seq![self.swj_clock_status(clock)]
            },
            Command::DAP_SWJ_Sequence => {
                &&& after == *self
                &&& then == before + self.swj_sequence_ops(p)
                &&& out == seq![
                    if self.swj_sequence_runs(p) {
                        DAP_OK
                    } else {
                        DAP_ERROR
                    },
                ]
            },
            Command::DAP_SWD_Configure => {
                &&& after == *self
                &&& then == before
                &&& out == seq![
                    if p[0] & 0b011 == 0 && p[0] & 0b100 == 0 {
                        DAP_OK
                    } else {
                        DAP_ERROR
                    },
                ]
            },
            Command::DAP_SWO_Transport => {
                &&& after == (if p[0] <= 2 {
                    DAP { swo_streaming: p[0] == 2, ..*self }
                } else {
                    *self
                })
                &&& then == before
                &&& out == seq![
                    if p[0] <= 2 {
                        DAP_OK
                    } else {
                        DAP_ERROR
                    },
                ]
            },
            Command::DAP_SWO_Mode => {
                &&& after == *self
                &&& then == before
                &&& out == seq![
                    if p[0] <= 1 {
                        DAP_OK
                    } else {
                        DAP_ERROR
                    },
                ]
            },
            Command::DAP_SWO_Baudrate => {
                let baud = le32(p[0], p[1], p[2], p[3]) as u32;
                &&& after == *self
                &&& then == before + self.uart.baud_ops(baud)
                &&& out == le32_bytes(self.uart.baud_set(baud) as u32)
            },
            Command::DAP_SWO_Control => {
                &&& after == (if p[0] == 1 {
                    DAP { uart: UART { last_idx: 0, ..self.uart }, ..*self }
                } else {
                    *self
                })
                &&& then == (if p[0] == 0 {
                    before.push(Op::UartStop(Port::Swo))
                } else if p[0] == 1 {
                    before.push(Op::UartStart(Port::Swo))
                } else {
                    before
                })
                &&& out == seq![
                    if p[0] <= 1 {
                        DAP_OK
                    } else {
                        DAP_ERROR
                    },
                ]
            },
            Command::DAP_SWO_Status => {
                &&& after == *self
                &&& self.swo_status_done(before, then, out, w.head)
            },
            Command::DAP_SWO_ExtendedStatus => {
                &&& after == *self
                &&& out.len() == 13
                &&& self.swo_status_done(before, then, out.take(5), w.head)
                &&& out.skip(5) == le32_bytes(0) + le32_bytes(0)
            },
            Command::DAP_SWO_Data => self.swo_data_done(
                after,
                le16(p[0], p[1]),
                packet as int,
                before,
                then,
                out,
                w.head,
            ),
            Command::DAP_JTAG_Sequence => {
                &&& after == *self
                &&& if self.mode == Some(DAPMode::JTAG) {
                    self.jtag_sequence_done(p, before, then, out, w.bulk_rx)
                } else {
                    then == before && out == seq![DAP_ERROR]
                }
            },
            Command::DAP_TransferConfigure => {
                &&& after == (DAP {
                    swd: SWD { wait_retries: le16(p[1], p[2]) as usize, ..self.swd },
                    match_retries: le16(p[3], p[4]) as usize,
                    ..*self
                })
                &&& then == before
                &&& out == seq![DAP_OK]
            },
            Command::DAP_Transfer => {
                &&& after == *self
                &&& self.transfer_done(p, before, then, w.steps, out)
            },
            Command::DAP_TransferBlock => {
                &&& after == *self
                &&& self.block_done(p, before, then, w.block, out)
            },
            Command::DAP_TransferAbort => {
                &&& after == *self
                &&& then == before
                &&& response.len() == 0
            },
            Command::Unimplemented => {
                &&& after == *self
                &&& then == before
                &&& out.len() == 0
            },
        }
    }
}

impl DAP {
    /// Number of bytes at the start of the response packet that processing
    /// a request may write, where the response has `n` bytes: the response;
    /// the opcode, even where nothing is answered; and for
    /// `DAP_JTAG_Sequence` the room that the engine needs.
    pub open spec fn reach(&self, report: Seq<u8>, n: nat) -> nat {
        if Command::of(report[0]) == Command::DAP_JTAG_Sequence {
            self.jtag_sequence_reach(report.skip(1))
        } else if n == 0 {
            1
        } else {
            n
        }
    }

    fn process_transfer_abort(&self) {
        // A request comes in only while no other is being processed, so
        // there is never a transfer to abort.
    }

    /// Processes the request in `report` and writes the response to the
    /// start of `rbuf`. Returns the length of the response; 0 where there
    /// is none. Beyond what the request may write, `rbuf` stays as it was.
    pub fn process_command<H: Board>(
        &mut self,
        hw: &mut H,
        report: &[u8],
        rbuf: &mut [u8],
        version: DAPVersion,
    ) -> (n: usize)
        requires
            old(self).wf(),
            report@.len() > 0 ==> old(self).accepts(report@, old(rbuf)@.len(), version),
        ensures
            final(self).wf(),
            final(rbuf)@.len() == old(rbuf)@.len(),
            n <= final(rbuf)@.len(),
            report@.len() == 0 ==> {
                &&& n == 0
                &&& *final(self) == *old(self)
                &&& final(hw).trace() == old(hw).trace()
                &&& final(rbuf)@ == old(rbuf)@
            },
            report@.len() > 0 ==> exists|w: Witness| #[trigger]
                old(self).command_done(
                    *final(self),
                    report@,
                    version,
                    old(rbuf)@.len(),
                    old(hw).trace(),
                    final(hw).trace(),
                    final(rbuf)@.take(n as int),
                    w,
                ),
            report@.len() > 0 ==> final(rbuf)@.skip(old(self).reach(report@, n as nat) as int)
                == old(rbuf)@.skip(old(self).reach(report@, n as nat) as int),
            report@.len() > 0 && Command::of(report@[0]) == Command::Unimplemented
                ==> final(rbuf)@ == old(rbuf)@.update(0, 0xFF),
    {
        let req = match Request::from_report(report) {
            Some(req) => req,
            None => {
                return 0;
            },
        };
        let command = req.command;
        let ghost p = req.data@;
        let ghost mut w = Witness {
            tries: Seq::empty(),
            block: Seq::empty(),
            steps: Seq::empty(),
            bulk_rx: Seq::empty(),
            head: 0,
        };
        let ghost before = hw.trace();
        let ghost packet = rbuf@.len();
        let mut resp = ResponseWriter::new(command, rbuf);
        let ghost opened = resp.buf@;

        match command {
            Command::DAP_Info => self.process_info(req, &mut resp, version),
            Command::DAP_HostStatus => self.process_host_status(hw, req, &mut resp),
            Command::DAP_Connect => self.process_connect(hw, req, &mut resp),
            Command::DAP_Disconnect => self.process_disconnect(hw, &mut resp),
            Command::DAP_WriteABORT => {
                self.process_write_abort(hw, req, &mut resp);
                proof {
                    if self.mode is Some {
                        let tries = choose|tries: Seq<Attempt>| #[trigger]
                            self.abort_done(
                                le32(p[1], p[2], p[3], p[4]) as u32,
                                before,
                                hw.trace(),
                                tries,
                                seq![resp.buf@[1]],
                            );
                        w = Witness { tries, ..w };
                    }
                }
            },
            Command::DAP_Delay => self.process_delay(hw, req, &mut resp),
            Command::DAP_ResetTarget => self.process_reset_target(&mut resp),
            Command::DAP_SWJ_Pins => self.process_swj_pins(hw, req, &mut resp),
            Command::DAP_SWJ_Clock => self.process_swj_clock(hw, req, &mut resp),
            Command::DAP_SWJ_Sequence => self.process_swj_sequence(hw, req, &mut resp),
            Command::DAP_SWD_Configure => self.process_swd_configure(req, &mut resp),
            Command::DAP_SWO_Transport => self.process_swo_transport(req, &mut resp),
            Command::DAP_SWO_Mode => self.process_swo_mode(req, &mut resp),
            Command::DAP_SWO_Baudrate => self.process_swo_baudrate(hw, req, &mut resp),
            Command::DAP_SWO_Control => self.process_swo_control(hw, req, &mut resp),
            Command::DAP_SWO_Status => {
                self.process_swo_status(hw, &mut resp);
                proof {
                    let head = choose|head: usize| #[trigger]
                        self.swo_status_done(
                            before,
                            hw.trace(),
                            resp.buf@.subrange(1, resp.idx as int),
                            head,
                        );
                    w = Witness { head, ..w };
                }
            },
            Command::DAP_SWO_ExtendedStatus => {
                self.process_swo_extended_status(hw, &mut resp);
                proof {
                    let head = choose|head: usize| #[trigger]
                        self.swo_status_done(before, hw.trace(), resp.buf@.subrange(1, 6), head);
                    let out = resp.buf@.subrange(1, 14);
                    assert(out.take(5) =~= resp.buf@.subrange(1, 6));
                    assert(out.skip(5) =~= resp.buf@.subrange(6, 14));
                    w = Witness { head, ..w };
                }
            },
            Command::DAP_SWO_Data => {
                self.process_swo_data(hw, req, &mut resp);
                proof {
                    let head = choose|head: usize| #[trigger]
                        old(self).swo_data_done(
                            *self,
                            le16(p[0], p[1]),
                            packet as int,
                            before,
                            hw.trace(),
                            resp.buf@.subrange(1, resp.idx as int),
                            head,
                        );
                    w = Witness { head, ..w };
                }
            },
            Command::DAP_JTAG_Sequence => {
                self.process_jtag_sequence(hw, req, &mut resp);
                proof {
                    if self.mode == Some(DAPMode::JTAG) {
                        let bulk_rx = choose|bulk_rx: Seq<u8>| #[trigger]
                            self.jtag_sequence_done(
                                p,
                                before,
                                hw.trace(),
                                resp.buf@.subrange(1, resp.idx as int),
                                bulk_rx,
                            );
                        w = Witness { bulk_rx, ..w };
                    }
                }
            },
            Command::DAP_TransferConfigure => self.process_transfer_configure(req, &mut resp),
            Command::DAP_Transfer => {
                self.process_transfer(hw, req, &mut resp);
                proof {
                    let steps = choose|steps: Seq<Seq<Transaction>>| #[trigger]
                        self.transfer_done(
                            p,
                            before,
                            hw.trace(),
                            steps,
                            resp.buf@.subrange(1, resp.idx as int),
                        );
                    w = Witness { steps, ..w };
                }
            },
            Command::DAP_TransferBlock => {
                self.process_transfer_block(hw, req, &mut resp);
                proof {
                    let block = choose|block: Seq<Transaction>| #[trigger]
                        self.block_done(
                            p,
                            before,
                            hw.trace(),
                            block,
                            resp.buf@.subrange(1, resp.idx as int),
                        );
                    w = Witness { block, ..w };
                }
            },
            Command::DAP_TransferAbort => {
                self.process_transfer_abort();
                // An abort is not answered.
                proof {
                    assert(resp.buf@.take(0) =~= Seq::<u8>::empty());
                    assert(resp.buf@.skip(1) =~= old(rbuf)@.skip(1));
                    assert(old(self).command_done(
                        *self,
                        report@,
                        version,
                        packet,
                        before,
                        hw.trace(),
                        resp.buf@.take(0),
                        w,
                    ));
                }
                return 0;
            },
            Command::Unimplemented => {},
        }
        let n = resp.idx;
        proof {
            let reach = old(self).reach(report@, n as nat) as int;
            assert(opened.skip(reach) =~= old(rbuf)@.skip(reach));
            let response = resp.buf@.take(n as int);
            assert(response.skip(1) =~= resp.buf@.subrange(1, n as int));
            assert(response[0] == command.spec_code());
            assert(old(self).command_done(
                *self,
                report@,
                version,
                packet,
                before,
                hw.trace(),
                response,
                w,
            ));
        }
        n
    }
}

/// Whether the packets have room for the transfers of a list that all go
/// through.
pub fn fits_transfers(list: &[u8], n: u8, room: usize) -> (fits: bool)
    ensures
        fits == transfer_fits(list@, n as nat, room as int),
{
    let total = list.len();
    let mut pos: usize = 0;
    let mut left: u8 = n;
    let mut free: usize = room;
    assert(list@.skip(0) =~= list@);
    while left > 0
        invariant
            pos <= list@.len() == total,
            transfer_fits(list@, n as nat, room as int) == transfer_fits(
                list@.skip(pos as int),
                left as nat,
                free as int,
            ),
        decreases left,
    {
        let ghost rest = list@.skip(pos as int);
        if pos >= total {
            return false;
        }
        let t = list[pos];
        assert(rest[0] == t);
        if (t & 0x02) != 0 && (t & 0x10) == 0 {
            if free < 4 {
                return false;
            }
            assert(rest.skip(1) =~= list@.skip(pos + 1));
            free -= 4;
            pos += 1;
        } else {
            if total - pos < 5 {
                return false;
            }
            assert(rest.skip(5) =~= list@.skip(pos + 5));
            pos += 5;
        }
        left -= 1;
    }
    true
}

impl DAP {
    /// Whether the request in `report` can be processed with a response
    /// packet of `packet` bytes.
    pub fn can_process(&self, report: &[u8], packet: usize, version: DAPVersion) -> (ok: bool)
        requires
            report@.len() > 0,
        ensures
            ok == self.accepts(report@, packet as nat, version),
    {
        if packet < 1 {
            return false;
        }
        let command = Command::from_opcode(report[0]);
        let p = vstd::slice::slice_subrange(report, 1, report.len());
        assert(p@ =~= report@.skip(1));
        let len = p.len();
        match command {
            Command::DAP_Info => {
                if len < 1 {
                    return false;
                }
                let id = p[0];
                let ghost out = info_out(id, version, self.firmware_version@);
                if id == 0x04 {
                    packet >= 2 && packet - 2 >= self.firmware_version.len()
                } else if id == 0xF0 {
                    packet >= 3
                } else if id == 0xFD {
                    packet >= 6
                } else if id == 0xFE {
                    packet >= 3
                } else if id == 0xFF {
                    packet >= 4
                } else {
                    packet >= 2
                }
            },
            Command::DAP_HostStatus => len >= 2 && packet >= 2,
            Command::DAP_Connect => len >= 1 && packet >= 2,
            Command::DAP_Disconnect => packet >= 2,
            Command::DAP_WriteABORT => packet >= 2 && (self.mode.is_none() || len >= 5),
            Command::DAP_Delay => len >= 2 && packet >= 2,
            Command::DAP_ResetTarget => packet >= 3,
            Command::DAP_SWJ_Pins => {
                if len < 6 || packet < 2 {
                    return false;
                }
                let wait: u64 = (p[2] as u64) + 256 * (p[3] as u64) + 65536 * (p[4] as u64)
                    + 16777216 * (p[5] as u64);
                42 * wait <= 0xFFFF_FFFF
            },
            Command::DAP_SWJ_Clock => len >= 4 && packet >= 2,
            Command::DAP_SWJ_Sequence => len >= 1 && packet >= 2,
            Command::DAP_SWD_Configure => len >= 1 && packet >= 2,
            Command::DAP_SWO_Transport => len >= 1 && packet >= 2,
            Command::DAP_SWO_Mode => len >= 1 && packet >= 2,
            Command::DAP_SWO_Baudrate => len >= 4 && packet >= 5,
            Command::DAP_SWO_Control => len >= 1 && packet >= 2,
            Command::DAP_SWO_Status => packet >= 6,
            Command::DAP_SWO_ExtendedStatus => packet >= 14,
            Command::DAP_SWO_Data => len >= 2 && packet >= 4,
            Command::DAP_JTAG_Sequence => {
                let jtag = match self.mode {
                    Some(DAPMode::JTAG) => true,
                    _ => false,
                };
                packet >= 2 && (!jtag || len <= packet)
            },
            Command::DAP_TransferConfigure => len >= 5 && packet >= 2,
            Command::DAP_Transfer => {
                if len < 2 || packet < 3 {
                    return false;
                }
                let list = vstd::slice::slice_subrange(p, 2, len);
                assert(list@ =~= p@.skip(2));
                fits_transfers(list, p[1], packet - 3)
            },
            Command::DAP_TransferBlock => {
                if len < 4 || packet < 4 {
                    return false;
                }
                let n: usize = (p[1] as usize) + 256 * (p[2] as usize);
                if (p[3] & 0x02) != 0 {
                    (packet - 4) / 4 >= n
                } else {
                    (len - 4) / 4 >= n
                }
            },
            Command::DAP_TransferAbort => true,
            Command::Unimplemented => true,
        }
    }
}

/// A request with an opcode that the probe does not know is answered with
/// one byte, the opcode of `Unimplemented`, and changes nothing.
pub proof fn lemma_unknown_opcode_is_answered_in_one_byte(
    dap: DAP,
    after: DAP,
    report: Seq<u8>,
    version: DAPVersion,
    packet: nat,
    before: Seq<Op>,
    then: Seq<Op>,
    response: Seq<u8>,
    w: Witness,
)
    requires
        report.len() > 0,
        Command::of(report[0]) == Command::Unimplemented,
        dap.command_done(after, report, version, packet, before, then, response, w),
    ensures
        response == seq![0xFFu8],
        after == dap,
        then == before,
{
    assert(response =~= seq![0xFFu8]);
}

/// `DAP_Connect` with a port number that stands for no wire protocol is
/// answered with the code for failure, 0, and leaves the processor as it
/// was, connected or not.
pub proof fn lemma_connect_to_invalid_port_fails(
    dap: DAP,
    after: DAP,
    report: Seq<u8>,
    version: DAPVersion,
    packet: nat,
    before: Seq<Op>,
    then: Seq<Op>,
    response: Seq<u8>,
    w: Witness,
)
    requires
        report.len() >= 2,
        report[0] == 0x02,
        report[1] > 2,
        dap.command_done(after, report, version, packet, before, then, response, w),
    ensures
        response == seq![0x02u8, 0x00u8],
        after == dap,
        then == before,
{
    assert(report.skip(1)[0] == report[1]);
    assert(response.skip(1) == seq![0u8]);
    assert(response.skip(1)[0] == 0u8);
    assert(response =~= seq![0x02u8, 0x00u8]);
    assert(before + Seq::<Op>::empty() =~= before);
}

/// `DAP_SWJ_Clock` with a frequency of 0 Hz is answered with the status for
/// failure and changes nothing: no clock is that slow.
pub proof fn lemma_clock_of_zero_is_refused(
    dap: DAP,
    after: DAP,
    report: Seq<u8>,
    version: DAPVersion,
    packet: nat,
    before: Seq<Op>,
    then: Seq<Op>,
    response: Seq<u8>,
    w: Witness,
)
    requires
        report.len() >= 5,
        report[0] == 0x11,
        report[1] == 0 && report[2] == 0 && report[3] == 0 && report[4] == 0,
        dap.command_done(after, report, version, packet, before, then, response, w),
    ensures
        response == seq![0x11u8, DAP_ERROR],
        after == dap,
        then == before,
{
    let p = report.skip(1);
    assert(p[0] == 0 && p[1] == 0 && p[2] == 0 && p[3] == 0);
    assert(le32(p[0], p[1], p[2], p[3]) == 0);
    assert(response.skip(1) == seq![DAP_ERROR]);
    assert(response.skip(1)[0] == DAP_ERROR);
    assert(response =~= seq![0x11u8, DAP_ERROR]);
    assert(before + Seq::<Op>::empty() =~= before);
}

/// `DAP_Disconnect` is answered with OK and leaves the processor not
/// connected; one that is not connected is left as it was.
pub proof fn lemma_disconnect_is_idempotent(
    dap: DAP,
    after: DAP,
    report: Seq<u8>,
    version: DAPVersion,
    packet: nat,
    before: Seq<Op>,
    then: Seq<Op>,
    response: Seq<u8>,
    w: Witness,
)
    requires
        report.len() >= 1,
        report[0] == 0x03,
        dap.command_done(after, report, version, packet, before, then, response, w),
    ensures
        response == seq![0x03u8, DAP_OK],
        after.mode is None,
        dap.mode is None ==> after == dap,
        then == before + dap.disconnect_ops(),
{
    assert(response.skip(1) == seq![DAP_OK]);
    assert(response.skip(1).len() == 1);
    assert(response.skip(1)[0] == DAP_OK);
    assert(response =~= seq![0x03u8, DAP_OK]);
}

/// A block of `n` reads from a register of the access port that all go
/// through makes `n + 1` transfers on the wire: one read is posted ahead.
pub proof fn lemma_block_of_reads_posts_one_ahead(
    dap: DAP,
    payload: Seq<u8>,
    before: Seq<Op>,
    after: Seq<Op>,
    txs: Seq<Transaction>,
    out: Seq<u8>,
)
    requires
        payload.len() >= 4,
        le16(payload[1], payload[2]) > 0,
        request_reads(payload[3]),
        request_port(payload[3]) == APnDP::AP,
        dap.block_done(payload, before, after, txs, out),
        forall|i: int| 0 <= i < txs.len() ==> (#[trigger] txs[i]).error() is None,
    ensures
        txs.len() == le16(payload[1], payload[2]) + 1,
        forall|i: int|
            0 <= i < txs.len() - 1 ==> (#[trigger] txs[i]).access == read_of(
                APnDP::AP,
                request_address(payload[3]),
            ),
        txs.last().access == read_of(APnDP::DP, 3),
{
    let n = le16(payload[1], payload[2]) as nat;
    let t = payload[3];
    let body = txs.skip(block_lead(t, n));
    let words = payload.skip(4);
    assert(txs[0].error() is None);
    if body.len() < n {
        assert(body.last() == txs[txs.len() - 1]);
    }
    assert(body.len() == n);
    assert forall|i: int| 0 <= i < txs.len() - 1 implies (#[trigger] txs[i]).access == read_of(
        APnDP::AP,
        request_address(payload[3]),
    ) by {
        if i > 0 {
            assert(txs[i] == body[i - 1]);
            assert(body[i - 1].access == block_access(payload[3], n, payload.skip(4), i - 1));
        }
    }
    assert(txs.last() == body[n - 1]);
    assert(body[n - 1].access == block_access(payload[3], n, payload.skip(4), n - 1));
}

/// The steps of `DAP_Transfer` before the last went through without ending
/// the command.
proof fn lemma_run_of_fewer_steps(dap: DAP, list: Seq<u8>, steps: Seq<Seq<Transaction>>, k: int)
    requires
        dap.transfer_run(list, steps) is Some,
        0 <= k <= steps.len(),
    ensures
        dap.transfer_run(list, steps.take(k)) is Some,
        k < steps.len() ==> !dap.transfer_run(list, steps.take(k))->0.stopped,
    decreases steps.len(),
{
    if k == steps.len() {
        assert(steps.take(k) =~= steps);
    } else if k == steps.len() - 1 {
        assert(steps.take(k) =~= steps.drop_last());
    } else {
        lemma_run_of_fewer_steps(dap, list, steps.drop_last(), k);
        assert(steps.drop_last().take(k) =~= steps.take(k));
    }
}

/// A transfer of the list whose last transfer on the wire failed ends the
/// command with the status of that failure, and brings no word.
proof fn lemma_failed_step_stops(dap: DAP, list: Seq<u8>, p: Progress, txs: Seq<Transaction>)
    requires
        dap.transfer_step(list, p, txs) is Some,
        txs.len() > 0,
        txs.last().error() is Some,
    ensures
        dap.transfer_step(list, p, txs)->0.stopped,
        dap.transfer_step(list, p, txs)->0.status == transfer_status(txs.last().error()),
        dap.transfer_step(list, p, txs)->0.data == p.data,
{
    let t = list[p.pos];
    let port = request_port(t);
    if request_reads(t) && first_read_went_through(port, txs) {
        let k = first_reads(port);
        let repeats = txs.skip(k as int);
        if repeats.len() > 0 {
            assert(repeats.last() == txs.last());
        } else {
            assert(txs.last() == txs[k - 1]);
        }
    }
}

proof fn lemma_status_keeps_its_low_bits(status: u8)
    by (bit_vector)
    requires
        status <= 0x0F,
    ensures
        (status | 0x10) & 0x0F == status,
        status & 0x0F == status,
{
}

/// A transfer on the wire that fails ends `DAP_Transfer`: where the last
/// transfer on the wire of step `j` failed, step `j` is the last one, the
/// response counts `j + 1` transfers, and the low four bits of its status
/// byte are the status of the failure. No later transfer of the list
/// reaches the wire.
pub proof fn lemma_transfer_stops_at_the_first_failure(
    dap: DAP,
    payload: Seq<u8>,
    before: Seq<Op>,
    after: Seq<Op>,
    steps: Seq<Seq<Transaction>>,
    out: Seq<u8>,
    j: int,
)
    requires
        payload.len() >= 2,
        dap.transfer_done(payload, before, after, steps, out),
        0 <= j < steps.len(),
        steps[j].len() > 0,
        steps[j].last().error() is Some,
    ensures
        steps.len() == j + 1,
        out.len() >= 2,
        out[0] == j + 1,
        out[1] & 0x0F == transfer_status(steps[j].last().error()),
        after == before + restore_ops() + steps_ops(dap.swd.spi, steps.take(j + 1)),
{
    let list = payload.skip(2);
    lemma_run_of_fewer_steps(dap, list, steps, j);
    lemma_run_of_fewer_steps(dap, list, steps, j + 1);
    let p = dap.transfer_run(list, steps.take(j))->0;
    let upto = steps.take(j + 1);
    assert(upto.drop_last() =~= steps.take(j));
    assert(upto.last() == steps[j]);
    lemma_failed_step_stops(dap, list, p, steps[j]);
    assert(steps.take(j + 1) =~= steps);
    let status = transfer_status(steps[j].last().error());
    assert((1u8 << 3u8) | 7u8 == 0x0Fu8) by (bit_vector);
    lemma_status_keeps_its_low_bits(status);
}

/// `DAP_SWO_Data` hands over what waits in the ring, as far as the host
/// asked for it and the packet has room: never more than waits, and where
/// fewer bytes wait than were asked for, just those. The length in the
/// response is the number of bytes that follow it.
pub proof fn lemma_swo_data_hands_over_what_waits(
    dap: DAP,
    then: DAP,
    asked: int,
    packet: int,
    before: Seq<Op>,
    after: Seq<Op>,
    out: Seq<u8>,
    head: usize,
)
    requires
        dap.wf(),
        0 <= asked,
        4 <= packet,
        dap.swo_data_done(then, asked, packet, before, after, out, head),
    ensures
        out.subrange(1, 3) == le16_bytes((out.len() - 3) as u16),
        out.len() - 3 <= asked,
        out.len() - 3 <= packet - 4,
        out.len() - 3 <= ring_available(
            dap.uart.last_idx as int,
            head as int,
            ring_len(Port::Swo) as int,
        ),
        ring_available(dap.uart.last_idx as int, head as int, ring_len(Port::Swo) as int) <= asked
            && ring_available(dap.uart.last_idx as int, head as int, ring_len(Port::Swo) as int)
            <= packet - 4 ==> out.len() - 3 == ring_available(
            dap.uart.last_idx as int,
            head as int,
            ring_len(Port::Swo) as int,
        ),
{
    assert(out.skip(3).len() == out.len() - 3);
}

} // verus!
