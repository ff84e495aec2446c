//! What the probe does between two polls of the USB stack: it takes a
//! request from the host, lets the command processor or the serial port
//! deal with it, and hands back what is to be sent.

use vstd::prelude::*;
use vstd::seq_lib::lemma_concat_associative;
use crate::board::{ring_len, send_ops, Board, Line, Op, Port};
use crate::dap::{DAPVersion, Witness, DAP};
use crate::gpio::{high_impedance_ops, setup_ops, Pins};
use crate::rcc::Clocks;
use crate::slices::head_mut;
use crate::dap::asked_whether_active;
use crate::uart::{ring_available, ring_read_between, ring_was_read, UART};
use crate::vcp::{config_ops, serial_line_ops, VcpConfig, VCP};

verus! {

/// What the USB stack hands to the probe.
pub enum Request {
    /// The host has left the configured state.
    Suspend,
    /// A request by the HID interface: the packet and its length.
    DAP1Command(([u8; 64], usize)),
    /// A request by the bulk interface: the packet and its length.
    DAP2Command(([u8; 512], usize)),
    /// Bytes that the host sends down the serial line: the packet and its
    /// length.
    VCPPacket(([u8; 512], usize)),
}

/// What the probe hands back for a request.
#[derive(Clone, Copy, PartialEq, Eq, Structural, Debug)]
pub enum Reply {
    /// Nothing is to be sent.
    Nothing,
    /// This many bytes of the response buffer go back by the HID interface.
    Dap1(usize),
    /// This many bytes of the response buffer go back by the bulk interface.
    Dap2(usize),
    /// The request is not one that the probe can process; nothing was done.
    Malformed,
}

impl Reply {
    /// Number of bytes of the response buffer that go back to the host.
    pub open spec fn len(self) -> nat {
        match self {
            Reply::Dap1(n) => n as nat,
            Reply::Dap2(n) => n as nat,
            _ => 0,
        }
    }
}

/// What became of a line coding that the host reported.
#[derive(Clone, Copy, PartialEq, Eq, Structural, Debug)]
pub enum LineChange {
    /// It is the one in force.
    Unchanged,
    /// The serial port was stopped, set up for it and started again.
    Applied,
    /// The serial port cannot be set up for it; nothing was done.
    Unsupported,
}

/// Trace of a suspend: the debug lines are released, the LEDs go out, the
/// supplies of the target are switched off, and the SPI peripherals are
/// disabled.
pub open spec fn suspend_ops(dap: DAP) -> Seq<Op> {
    high_impedance_ops() + seq![
        Op::PinWrite(Line::LedRed, true),
        Op::PinWrite(Line::LedBlue, true),
        Op::PinWrite(Line::LedGreen, true),
        Op::PinWrite(Line::TvccEn, false),
        Op::PinWrite(Line::T5vEn, false),
        Op::SpiDisable(dap.swd.spi.bus),
        Op::SpiDisable(dap.jtag.spi.bus),
    ]
}

/// Size of the packets of a protocol version.
pub open spec fn packet_size(version: DAPVersion) -> nat {
    match version {
        DAPVersion::V1 => 64,
        DAPVersion::V2 => 512,
    }
}

/// The probe.
pub struct App {
    /// The command processor.
    pub dap: DAP,
    /// The virtual serial port.
    pub vcp: VCP,
    /// What goes back to the host next.
    pub resp_buf: [u8; 512],
    /// The line coding in force on the serial port.
    pub vcp_config: VcpConfig,
}

impl App {
    /// The command processor and the serial port are well formed.
    pub open spec fn wf(&self) -> bool {
        self.dap.wf() && self.vcp.wf()
    }

    /// A probe with an empty response buffer and the default line coding.
    pub fn new(dap: DAP, vcp: VCP) -> (app: Self)
        ensures
            app.dap == dap,
            app.vcp == vcp,
            app.vcp_config == (VcpConfig {
                stop_bits: crate::vcp::StopBits::One,
                data_bits: 8,
                parity_type: crate::vcp::ParityType::Disabled,
                data_rate: 8_000,
            }),
            forall|i: int| 0 <= i < 512 ==> app.resp_buf@[i] == 0,
    {
        App { dap, vcp, resp_buf: [0u8;512], vcp_config: VcpConfig::default() }
    }

    /// Takes the frequencies of the clocks into every part that times or
    /// divides by them, sets up the lines, releases the debug lines,
    /// disables the SPI peripherals and sets up the serial port.
    pub fn setup<H: Board>(&mut self, hw: &mut H, clocks: &Clocks)
        requires
            2 * clocks.spec_pclk1() <= u32::MAX,
            2 * clocks.spec_pclk2() <= u32::MAX,
        ensures
            final(self).dap.swd.delay.base_clock == clocks.spec_hclk(),
            final(self).dap.jtag.delay.base_clock == clocks.spec_hclk(),
            final(self).dap.swd.spi == (crate::spi::SPI {
                base_clock: (match old(self).dap.swd.spi.bus {
                    crate::spi::SpiBus::Spi1 => clocks.spec_pclk2(),
                    crate::spi::SpiBus::Spi2 => clocks.spec_pclk1(),
                }) as u32,
                ..old(self).dap.swd.spi
            }),
            final(self).dap.jtag.spi == (crate::spi::SPI {
                base_clock: (match old(self).dap.jtag.spi.bus {
                    crate::spi::SpiBus::Spi1 => clocks.spec_pclk2(),
                    crate::spi::SpiBus::Spi2 => clocks.spec_pclk1(),
                }) as u32,
                ..old(self).dap.jtag.spi
            }),
            final(self).dap.uart == (UART { fck: clocks.spec_pclk2() as u32, ..old(self).dap.uart }),
            final(self).vcp == (VCP { fck: clocks.spec_pclk1() as u32, ..old(self).vcp }),
            final(self).dap.mode == old(self).dap.mode,
            final(self).dap.swo_streaming == old(self).dap.swo_streaming,
            final(self).dap.match_retries == old(self).dap.match_retries,
            final(self).dap.swd.wait_retries == old(self).dap.swd.wait_retries,
            final(self).dap.firmware_version == old(self).dap.firmware_version,
            final(hw).trace() == old(hw).trace() + setup_ops() + high_impedance_ops() + seq![
                Op::SpiDisable(old(self).dap.swd.spi.bus),
                Op::SpiDisable(old(self).dap.jtag.spi.bus),
            ] + serial_line_ops(Line::Usart2Tx) + serial_line_ops(Line::Usart2Rx) + seq![
                Op::UartListen(Port::Vcp),
            ],
    {
        let ghost t0 = hw.trace();
        self.dap.swd.delay.set_sysclk(clocks);
        self.dap.jtag.delay.set_sysclk(clocks);

        Pins::setup(hw);
        Pins::high_impedance_mode(hw);

        self.dap.swd.spi.set_base_clock(clocks);
        self.dap.swd.spi_disable(hw);
        self.dap.jtag.spi.set_base_clock(clocks);
        self.dap.jtag.spi_disable(hw);
        let ghost t1 = hw.trace();
        let ghost disabled = seq![
            Op::SpiDisable(old(self).dap.swd.spi.bus),
            Op::SpiDisable(old(self).dap.jtag.spi.bus),
        ];
        assert(t1 =~= t0 + setup_ops() + high_impedance_ops() + disabled);

        self.dap.setup(clocks);
        self.vcp.setup(hw, clocks);
    }

    /// Lights the red LED: the probe is set up.
    pub fn started<H: Board>(&self, hw: &mut H)
        ensures
            final(hw).trace() == old(hw).trace().push(Op::PinWrite(Line::LedRed, false)),
    {
        hw.pin_write(Line::LedRed, false);
    }

    /// Whether the serial port is done sending, so that the host may send
    /// more.
    pub fn tx_ready<H: Board>(&self, hw: &mut H) -> (ready: bool)
        ensures
            final(hw).trace() == old(hw).trace().push(Op::UartIdle(Port::Vcp, ready)),
    {
        self.vcp.is_tx_idle(hw)
    }

    /// The first `len` bytes of the response buffer.
    pub fn response(&self, len: usize) -> (bytes: &[u8])
        requires
            len <= 512,
        ensures
            bytes@ == self.resp_buf@.take(len as int),
    {
        vstd::slice::slice_subrange(self.resp_buf.as_slice(), 0, len)
    }

    /// What became of a request of the host of `n` bytes: it was told apart
    /// as one that cannot be processed and nothing was done; or it was
    /// empty and nothing was done; or the command processor processed it,
    /// and what it answers is at the start of the response buffer.
    pub open spec fn answered(
        &self,
        after: App,
        packet: Seq<u8>,
        n: usize,
        version: DAPVersion,
        before: Seq<Op>,
        then: Seq<Op>,
        reply: Reply,
    ) -> bool {
        let size = packet_size(version);
        if n > size || (n > 0 && !self.dap.accepts(packet, size, version)) {
            reply == Reply::Malformed && after == *self && then == before
        } else if n == 0 {
            reply == Reply::Nothing && after == *self && then == before
        } else {
            &&& reply == (if reply.len() == 0 {
                Reply::Nothing
            } else {
                match version {
                    DAPVersion::V1 => Reply::Dap1(reply.len() as usize),
                    DAPVersion::V2 => Reply::Dap2(reply.len() as usize),
                }
            })
            &&& reply.len() <= size
            &&& after.vcp == self.vcp
            &&& after.vcp_config == self.vcp_config
            &&& exists|w: Witness| #[trigger]
                self.dap.command_done(
                    after.dap,
                    packet,
                    version,
                    size,
                    before,
                    then,
                    after.resp_buf@.take(reply.len() as int),
                    w,
                )
        }
    }

    /// Lets the command processor process a request that it accepts.
    /// Returns the length of the response.
    fn run_command<H: Board>(&mut self, hw: &mut H, packet: &[u8], version: DAPVersion) -> (len:
        usize)
        requires
            old(self).wf(),
            packet@.len() > 0,
            old(self).dap.accepts(packet@, packet_size(version), version),
        ensures
            final(self).wf(),
            final(self).vcp == old(self).vcp,
            final(self).vcp_config == old(self).vcp_config,
            len <= packet_size(version),
            exists|w: Witness| #[trigger]
                old(self).dap.command_done(
                    final(self).dap,
                    packet@,
                    version,
                    packet_size(version),
                    old(hw).trace(),
                    final(hw).trace(),
                    final(self).resp_buf@.take(len as int),
                    w,
                ),
    {
        match version {
            DAPVersion::V1 => {
                let rbuf = head_mut(&mut self.resp_buf, 64);
                let len = self.dap.process_command(hw, packet, rbuf, version);
                let ghost answer = rbuf@.take(len as int);
                proof {
                    assert(self.resp_buf@.take(len as int) =~= answer);
                    let w = choose|w: Witness| #[trigger]
                        old(self).dap.command_done(
                            self.dap,
                                    packet@,
                            version,
                            64,
                            old(hw).trace(),
                            hw.trace(),
                            answer,
                            w,
                        );
                    assert(old(self).dap.command_done(
                        self.dap,
                            packet@,
                        version,
                        packet_size(version),
                        old(hw).trace(),
                        hw.trace(),
                        self.resp_buf@.take(len as int),
                        w,
                    ));
                }
                len
            },
            DAPVersion::V2 => {
                let len = self.dap.process_command(hw, packet, &mut self.resp_buf, version);
                proof {
                    let w = choose|w: Witness| #[trigger]
                        old(self).dap.command_done(
                            self.dap,
                                    packet@,
                            version,
                            512,
                            old(hw).trace(),
                            hw.trace(),
                            self.resp_buf@.take(len as int),
                            w,
                        );
                    assert(old(self).dap.command_done(
                        self.dap,
                            packet@,
                        version,
                        packet_size(version),
                        old(hw).trace(),
                        hw.trace(),
                        self.resp_buf@.take(len as int),
                        w,
                    ));
                }
                len
            },
        }
    }

    /// Deals with what the USB stack handed over.
    ///
    /// A request of the host goes to the command processor, with a response
    /// packet of 64 bytes by the HID interface and of 512 bytes by the bulk
    /// interface; what it answers is in the response buffer, and the reply
    /// says how much of it and by which interface it goes back. Serial
    /// bytes are handed to the serial port. On a suspend the probe lets go
    /// of the target. A request that cannot be processed is told apart, and
    /// nothing is done for it.
    pub fn process_request<H: Board>(&mut self, hw: &mut H, req: Request) -> (reply: Reply)
        requires
            old(self).wf(),
        ensures
            final(self).wf(),
            match req {
                Request::Suspend => {
                    &&& reply == Reply::Nothing
                    &&& *final(self) == *old(self)
                    &&& final(hw).trace() == old(hw).trace() + suspend_ops(old(self).dap)
                },
                Request::DAP1Command((report, n)) => old(self).answered(
                    *final(self),
                    report@.take(n as int),
                    n,
                    DAPVersion::V1,
                    old(hw).trace(),
                    final(hw).trace(),
                    reply,
                ),
                Request::DAP2Command((report, n)) => old(self).answered(
                    *final(self),
                    report@.take(n as int),
                    n,
                    DAPVersion::V2,
                    old(hw).trace(),
                    final(hw).trace(),
                    reply,
                ),
                Request::VCPPacket((buffer, n)) => if n > 512 {
                    &&& reply == Reply::Malformed
                    &&& *final(self) == *old(self)
                    &&& final(hw).trace() == old(hw).trace()
                } else {
                    &&& reply == Reply::Nothing
                    &&& *final(self) == *old(self)
                    &&& final(hw).trace() == old(hw).trace() + send_ops(
                        Port::Vcp,
                        buffer@.take(n as int),
                    )
                },
            },
    {
        match req {
            Request::DAP1Command((report, n)) => {
                if n > 64 {
                    return Reply::Malformed;
                }
                let packet = vstd::slice::slice_subrange(report.as_slice(), 0, n);
                assert(packet@ =~= report@.take(n as int));
                if n == 0 {
                    return Reply::Nothing;
                }
                if !self.dap.can_process(packet, 64, DAPVersion::V1) {
                    return Reply::Malformed;
                }
                let len = self.run_command(hw, packet, DAPVersion::V1);
                let reply = if len > 0 {
                    Reply::Dap1(len)
                } else {
                    Reply::Nothing
                };
                proof {
                    let w = choose|w: Witness| #[trigger]
                        old(self).dap.command_done(
                            self.dap,
                                    packet@,
                            DAPVersion::V1,
                            packet_size(DAPVersion::V1),
                            old(hw).trace(),
                            hw.trace(),
                            self.resp_buf@.take(len as int),
                            w,
                        );
                    assert(reply.len() == len);
                    assert(old(self).dap.command_done(
                        self.dap,
                            report@.take(n as int),
                        DAPVersion::V1,
                        packet_size(DAPVersion::V1),
                        old(hw).trace(),
                        hw.trace(),
                        self.resp_buf@.take(reply.len() as int),
                        w,
                    ));
                }
                reply
            },
            Request::DAP2Command((report, n)) => {
                if n > 512 {
                    return Reply::Malformed;
                }
                let packet = vstd::slice::slice_subrange(report.as_slice(), 0, n);
                assert(packet@ =~= report@.take(n as int));
                if n == 0 {
                    return Reply::Nothing;
                }
                if !self.dap.can_process(packet, 512, DAPVersion::V2) {
                    return Reply::Malformed;
                }
                let len = self.run_command(hw, packet, DAPVersion::V2);
                let reply = if len > 0 {
                    Reply::Dap2(len)
                } else {
                    Reply::Nothing
                };
                proof {
                    let w = choose|w: Witness| #[trigger]
                        old(self).dap.command_done(
                            self.dap,
                                    packet@,
                            DAPVersion::V2,
                            packet_size(DAPVersion::V2),
                            old(hw).trace(),
                            hw.trace(),
                            self.resp_buf@.take(len as int),
                            w,
                        );
                    assert(reply.len() == len);
                    assert(old(self).dap.command_done(
                        self.dap,
                            report@.take(n as int),
                        DAPVersion::V2,
                        packet_size(DAPVersion::V2),
                        old(hw).trace(),
                        hw.trace(),
                        self.resp_buf@.take(reply.len() as int),
                        w,
                    ));
                }
                reply
            },
            Request::VCPPacket((buffer, n)) => {
                if n > 512 {
                    return Reply::Malformed;
                }
                let bytes = vstd::slice::slice_subrange(buffer.as_slice(), 0, n);
                assert(bytes@ =~= buffer@.take(n as int));
                self.vcp.write(hw, bytes, n);
                Reply::Nothing
            },
            Request::Suspend => {
                Pins::high_impedance_mode(hw);
                let ghost released = hw.trace();
                hw.pin_write(Line::LedRed, true);
                hw.pin_write(Line::LedBlue, true);
                hw.pin_write(Line::LedGreen, true);
                hw.pin_write(Line::TvccEn, false);
                hw.pin_write(Line::T5vEn, false);
                self.dap.swd.spi_disable(hw);
                self.dap.jtag.spi_disable(hw);
                proof {
                    let rest = seq![
                        Op::PinWrite(Line::LedRed, true),
                        Op::PinWrite(Line::LedBlue, true),
                        Op::PinWrite(Line::LedGreen, true),
                        Op::PinWrite(Line::TvccEn, false),
                        Op::PinWrite(Line::T5vEn, false),
                        Op::SpiDisable(self.dap.swd.spi.bus),
                        Op::SpiDisable(self.dap.jtag.spi.bus),
                    ];
                    assert(hw.trace() =~= released + rest);
                    lemma_concat_associative(old(hw).trace(), high_impedance_ops(), rest);
                }
                Reply::Nothing
            },
        }
    }

    /// Whether trace output is to be streamed to the host. The trace
    /// receiver is asked whether it is enabled.
    pub fn wants_swo<H: Board>(&self, hw: &mut H) -> (wanted: bool)
        ensures
            exists|active: bool| #[trigger]
                asked_whether_active(old(hw).trace(), final(hw).trace(), active) && wanted == (
                active && self.dap.swo_streaming),
    {
        self.dap.is_swo_streaming(hw)
    }

    /// Takes the trace bytes that wait into the response buffer and returns
    /// their number, for them to be streamed to the host.
    pub fn drain_swo<H: Board>(&mut self, hw: &mut H) -> (len: usize)
        requires
            old(self).wf(),
        ensures
            final(self).wf(),
            len <= 512,
            final(self).dap == (DAP {
                uart: UART { last_idx: final(self).dap.uart.last_idx, ..old(self).dap.uart },
                ..old(self).dap
            }),
            final(self).vcp == old(self).vcp,
            final(self).vcp_config == old(self).vcp_config,
            ring_read_between(
                Port::Swo,
                old(self).dap.uart.last_idx,
                512,
                old(hw).trace(),
                final(hw).trace(),
                final(self).resp_buf@.take(len as int),
                final(self).dap.uart.last_idx,
            ),
    {
        self.dap.read_swo(hw, &mut self.resp_buf)
    }

    /// Takes a line coding that the host reported. Where it is not the one
    /// in force and the serial port can be set up for it, the port is
    /// stopped, set up and started again.
    pub fn update_line_coding<H: Board>(&mut self, hw: &mut H, config: VcpConfig) -> (change:
        LineChange)
        requires
            old(self).wf(),
        ensures
            final(self).wf(),
            final(self).dap == old(self).dap,
            final(self).resp_buf == old(self).resp_buf,
            config == old(self).vcp_config ==> {
                &&& change == LineChange::Unchanged
                &&& *final(self) == *old(self)
                &&& final(hw).trace() == old(hw).trace()
            },
            config != old(self).vcp_config && !VCP::supports(config) ==> {
                &&& change == LineChange::Unsupported
                &&& *final(self) == *old(self)
                &&& final(hw).trace() == old(hw).trace()
            },
            config != old(self).vcp_config && VCP::supports(config) ==> {
                &&& change == LineChange::Applied
                &&& final(self).vcp_config == config
                &&& final(self).vcp == (VCP { last_idx_rx: 0, last_idx_tx: 0, ..old(self).vcp })
                &&& final(hw).trace() == old(hw).trace() + seq![Op::UartStop(Port::Vcp)]
                    + config_ops(old(self).vcp.fck, config) + seq![Op::UartStart(Port::Vcp)]
            },
    {
        if config == self.vcp_config {
            return LineChange::Unchanged;
        }
        if config.data_bits < 7 || config.data_bits > 9 || config.data_rate == 0 {
            return LineChange::Unsupported;
        }
        self.vcp_config = config;
        self.vcp.stop(hw);
        self.vcp.set_config(hw, config);
        self.vcp.start(hw);
        proof {
            let stop = seq![Op::UartStop(Port::Vcp)];
            let set = config_ops(old(self).vcp.fck, config);
            assert(hw.trace() =~= (old(hw).trace() + stop + set).push(Op::UartStart(Port::Vcp)));
            assert((old(hw).trace() + stop + set).push(Op::UartStart(Port::Vcp)) =~= old(
                hw,
            ).trace() + stop + set + seq![Op::UartStart(Port::Vcp)]);
        }
        LineChange::Applied
    }

    /// What a look for serial bytes leaves behind, where the receiver stood
    /// at index `counted` of its ring when the bytes that wait were
    /// counted, and at index `read` when they were read: where none waited
    /// nothing more happened, else the ring was read with room for a whole
    /// response buffer.
    pub open spec fn vcp_drained(
        &self,
        after: App,
        before: Seq<Op>,
        then: Seq<Op>,
        bytes: Seq<u8>,
        counted: usize,
        read: usize,
    ) -> bool {
        let asked = before.push(Op::UartHead(Port::Vcp, counted));
        &&& counted <= ring_len(Port::Vcp)
        &&& after.dap == self.dap
        &&& after.vcp_config == self.vcp_config
        &&& if ring_available(
            self.vcp.last_idx_rx as int,
            counted as int,
            ring_len(Port::Vcp) as int,
        ) == 0 {
            then == asked && bytes.len() == 0 && after == *self
        } else {
            &&& after.vcp == (VCP { last_idx_rx: after.vcp.last_idx_rx, ..self.vcp })
            &&& ring_was_read(
                Port::Vcp,
                self.vcp.last_idx_rx,
                read,
                512,
                asked,
                then,
                bytes,
                after.vcp.last_idx_rx,
            )
        }
    }

    /// Takes the serial bytes that wait into the response buffer and
    /// returns their number, for them to be sent to the host.
    pub fn drain_vcp<H: Board>(&mut self, hw: &mut H) -> (len: usize)
        requires
            old(self).wf(),
        ensures
            final(self).wf(),
            len <= 512,
            exists|counted: usize, read: usize| #[trigger]
                old(self).vcp_drained(
                    *final(self),
                    old(hw).trace(),
                    final(hw).trace(),
                    final(self).resp_buf@.take(len as int),
                    counted,
                    read,
                ),
    {
        let ghost before = hw.trace();
        let waiting = self.vcp.rx_bytes_available(hw);
        let ghost asked = hw.trace();
        let ghost counted = choose|head: usize| #[trigger]
            crate::uart::ring_was_measured(
                Port::Vcp,
                self.vcp.last_idx_rx,
                head,
                before,
                asked,
                waiting,
            );
        if waiting > 0 {
            let len = self.vcp.read(hw, &mut self.resp_buf);
            proof {
                let read = choose|head: usize| #[trigger]
                    ring_was_read(
                        Port::Vcp,
                        old(self).vcp.last_idx_rx,
                        head,
                        512,
                        asked,
                        hw.trace(),
                        self.resp_buf@.take(len as int),
                        self.vcp.last_idx_rx,
                    );
                assert(old(self).vcp_drained(
                    *self,
                    before,
                    hw.trace(),
                    self.resp_buf@.take(len as int),
                    counted,
                    read,
                ));
            }
            len
        } else {
            proof {
                assert(self.resp_buf@.take(0).len() == 0);
                assert(old(self).vcp_drained(
                    *self,
                    before,
                    hw.trace(),
                    self.resp_buf@.take(0),
                    counted,
                    0,
                ));
            }
            0
        }
    }
}

} // verus!
