use hs_probe::app::{App, LineChange, Reply, Request};
use hs_probe::board::{Line, Op, PinMode, Port};
use hs_probe::dap::{DAPMode, DAP};
use hs_probe::delay::Delay;
use hs_probe::jtag::JTAG;
use hs_probe::rcc::Clocks;
use hs_probe::sim::SimBoard;
use hs_probe::spi::{SpiBus, SPI};
use hs_probe::swd::SWD;
use hs_probe::uart::UART;
use hs_probe::vcp::{ParityType, StopBits, VcpConfig, VCP};

fn probe(sim: &mut SimBoard) -> App {
    let dap = DAP::new(
        SWD::new(SPI::new(SpiBus::Spi1), Delay::new()),
        JTAG::new(SPI::new(SpiBus::Spi2), Delay::new()),
        UART::new(),
        b"test".to_vec(),
    );
    let mut app = App::new(dap, VCP::new());
    let clocks = Clocks::new(72_000_000, 0, 0b100, 0);
    app.setup(sim, &clocks);
    sim.forget();
    app
}

fn dap1(bytes: &[u8]) -> Request {
    let mut packet = [0u8; 64];
    packet[..bytes.len()].copy_from_slice(bytes);
    Request::DAP1Command((packet, bytes.len()))
}

fn dap2(bytes: &[u8]) -> Request {
    let mut packet = [0u8; 512];
    packet[..bytes.len()].copy_from_slice(bytes);
    Request::DAP2Command((packet, bytes.len()))
}

#[test]
fn setup_hands_the_clocks_round() {
    let mut sim = SimBoard::new();
    let dap = DAP::new(
        SWD::new(SPI::new(SpiBus::Spi1), Delay::new()),
        JTAG::new(SPI::new(SpiBus::Spi2), Delay::new()),
        UART::new(),
        Vec::new(),
    );
    let mut app = App::new(dap, VCP::new());
    assert_eq!(app.resp_buf, [0u8; 512]);
    let clocks = Clocks::new(216_000_000, 0, 0b101, 0b100);
    app.setup(&mut sim, &clocks);
    assert_eq!(app.dap.swd.delay.base_clock, 216_000_000);
    assert_eq!(app.dap.jtag.delay.base_clock, 216_000_000);
    assert_eq!(app.dap.swd.spi.base_clock, 108_000_000);
    assert_eq!(app.dap.jtag.spi.base_clock, 54_000_000);
    assert_eq!(app.dap.uart.fck, 108_000_000);
    assert_eq!(app.vcp.fck, 54_000_000);
    app.started(&mut sim);
    let ops = sim.ops();
    assert_eq!(ops[0], Op::PinWrite(Line::LedRed, true));
    assert_eq!(ops[ops.len() - 1], Op::PinWrite(Line::LedRed, false));
    assert_eq!(ops[ops.len() - 2], Op::UartListen(Port::Vcp));
    assert_eq!(ops[67], Op::PinWrite(Line::Reset, true));
    assert_eq!(ops[76], Op::SpiDisable(SpiBus::Spi1));
    assert_eq!(ops[77], Op::SpiDisable(SpiBus::Spi2));
    assert_eq!(ops.len(), 67 + 9 + 2 + 11 + 1);
}

#[test]
fn requests_are_answered_by_their_interface() {
    let mut sim = SimBoard::new();
    let mut app = probe(&mut sim);
    assert_eq!(app.process_request(&mut sim, dap1(&[0x02, 1])), Reply::Dap1(2));
    assert_eq!(app.response(2), &[0x02, 1]);
    assert_eq!(app.dap.mode, Some(DAPMode::SWD));
    assert_eq!(
        app.process_request(&mut sim, dap2(&[0x00, 0xFF])),
        Reply::Dap2(4)
    );
    assert_eq!(app.response(4), &[0x00, 2, 0x00, 0x02]);
    assert_eq!(
        app.process_request(&mut sim, dap1(&[0x00, 0xFF])),
        Reply::Dap1(4)
    );
    assert_eq!(app.response(4), &[0x00, 2, 64, 0]);
    assert_eq!(app.process_request(&mut sim, dap1(&[0x07])), Reply::Nothing);
    assert_eq!(app.process_request(&mut sim, dap1(&[])), Reply::Nothing);
    assert_eq!(app.process_request(&mut sim, dap2(&[])), Reply::Nothing);
    assert_eq!(app.process_request(&mut sim, dap1(&[0x99])), Reply::Dap1(1));
    assert_eq!(app.response(1), &[0xFF]);
}

#[test]
fn requests_that_cannot_be_processed_are_told_apart() {
    let mut sim = SimBoard::new();
    let mut app = probe(&mut sim);
    // Too short for its command.
    assert_eq!(app.process_request(&mut sim, dap1(&[0x02])), Reply::Malformed);
    assert_eq!(
        app.process_request(&mut sim, dap2(&[0x04, 0, 0])),
        Reply::Malformed
    );
    // Longer than its packet.
    assert_eq!(
        app.process_request(&mut sim, Request::DAP1Command(([0u8; 64], 65))),
        Reply::Malformed
    );
    assert_eq!(
        app.process_request(&mut sim, Request::DAP2Command(([0u8; 512], 513))),
        Reply::Malformed
    );
    assert_eq!(
        app.process_request(&mut sim, Request::VCPPacket(([0u8; 512], 513))),
        Reply::Malformed
    );
    // Sixteen reads do not fit a response of 64 bytes, but one of 512.
    let mut reads = vec![0x05u8, 0, 16];
    reads.extend([0x02u8; 16]);
    assert_eq!(app.process_request(&mut sim, dap1(&reads)), Reply::Malformed);
    assert_eq!(sim.ops(), vec![]);
    assert_eq!(app.process_request(&mut sim, dap2(&reads)), Reply::Dap2(67));
}

#[test]
fn serial_bytes_go_to_the_serial_port() {
    let mut sim = SimBoard::new();
    let mut app = probe(&mut sim);
    let mut packet = [0u8; 512];
    packet[..3].copy_from_slice(b"abc");
    assert_eq!(
        app.process_request(&mut sim, Request::VCPPacket((packet, 3))),
        Reply::Nothing
    );
    assert_eq!(
        sim.ops(),
        vec![
            Op::UartSend(Port::Vcp, 3),
            Op::Sent(b'a'),
            Op::Sent(b'b'),
            Op::Sent(b'c')
        ]
    );
    assert!(app.tx_ready(&mut sim));
    sim.set_tx_idle(false);
    assert!(!app.tx_ready(&mut sim));
}

#[test]
fn suspend_lets_go_of_the_target() {
    let mut sim = SimBoard::new();
    let mut app = probe(&mut sim);
    app.process_request(&mut sim, dap1(&[0x02, 1]));
    sim.forget();
    assert_eq!(app.process_request(&mut sim, Request::Suspend), Reply::Nothing);
    assert_eq!(
        sim.ops(),
        vec![
            Op::PinWrite(Line::Reset, true),
            Op::PinMode(Line::Reset, PinMode::Output),
            Op::PinMode(Line::Usart1Rx, PinMode::Input),
            Op::PinMode(Line::Spi1Clk, PinMode::Input),
            Op::PinMode(Line::Spi1Miso, PinMode::Input),
            Op::PinMode(Line::Spi1Mosi, PinMode::Input),
            Op::PinMode(Line::Spi2Clk, PinMode::Input),
            Op::PinMode(Line::Spi2Miso, PinMode::Input),
            Op::PinMode(Line::Spi2Mosi, PinMode::Input),
            Op::PinWrite(Line::LedRed, true),
            Op::PinWrite(Line::LedBlue, true),
            Op::PinWrite(Line::LedGreen, true),
            Op::PinWrite(Line::TvccEn, false),
            Op::PinWrite(Line::T5vEn, false),
            Op::SpiDisable(SpiBus::Spi1),
            Op::SpiDisable(SpiBus::Spi2),
        ]
    );
}

#[test]
fn trace_is_streamed_while_it_is_wanted() {
    let mut sim = SimBoard::new();
    let mut app = probe(&mut sim);
    assert!(!app.wants_swo(&mut sim));
    app.process_request(&mut sim, dap1(&[0x17, 2]));
    assert!(!app.wants_swo(&mut sim));
    app.process_request(&mut sim, dap1(&[0x1A, 1]));
    assert!(app.wants_swo(&mut sim));
    assert_eq!(app.drain_swo(&mut sim), 0);
    sim.receive(Port::Swo, &[5, 6, 7]);
    assert_eq!(app.drain_swo(&mut sim), 3);
    assert_eq!(app.response(3), &[5, 6, 7]);
    assert_eq!(app.drain_swo(&mut sim), 0);
    app.process_request(&mut sim, dap1(&[0x17, 1]));
    assert!(!app.wants_swo(&mut sim));
}

#[test]
fn line_coding_is_applied_when_it_changes() {
    let mut sim = SimBoard::new();
    let mut app = probe(&mut sim);
    let default = VcpConfig::default();
    assert_eq!(app.update_line_coding(&mut sim, default), LineChange::Unchanged);
    assert_eq!(sim.ops(), vec![]);
    let coding = VcpConfig {
        stop_bits: StopBits::One,
        data_bits: 8,
        parity_type: ParityType::Disabled,
        data_rate: 115_200,
    };
    assert_eq!(app.update_line_coding(&mut sim, coding), LineChange::Applied);
    assert_eq!(app.vcp_config, coding);
    // 72 MHz / 115200 = 625, rounded down to 624 = 0x270.
    assert_eq!(
        sim.ops(),
        vec![
            Op::UartStop(Port::Vcp),
            Op::UartDivider(Port::Vcp, 0x270),
            Op::UartWordLength(Port::Vcp, false, false),
            Op::UartStopBits(Port::Vcp, 0),
            Op::UartParityOff(Port::Vcp),
            Op::UartStart(Port::Vcp),
        ]
    );
    sim.forget();
    assert_eq!(app.update_line_coding(&mut sim, coding), LineChange::Unchanged);
    for (data_bits, data_rate) in [(6u8, 9600u32), (10, 9600), (8, 0)] {
        let bad = VcpConfig {
            data_bits,
            data_rate,
            ..coding
        };
        assert_eq!(app.update_line_coding(&mut sim, bad), LineChange::Unsupported);
        assert_eq!(app.vcp_config, coding);
    }
    assert_eq!(sim.ops(), vec![]);
}

#[test]
fn serial_bytes_received_go_back_to_the_host() {
    let mut sim = SimBoard::new();
    let mut app = probe(&mut sim);
    assert_eq!(app.drain_vcp(&mut sim), 0);
    assert_eq!(sim.ops(), vec![Op::UartHead(Port::Vcp, 0)]);
    sim.receive(Port::Vcp, b"hello");
    sim.forget();
    assert_eq!(app.drain_vcp(&mut sim), 5);
    assert_eq!(
        sim.ops(),
        vec![
            Op::UartHead(Port::Vcp, 5),
            Op::UartHead(Port::Vcp, 5),
            Op::RingCopy(Port::Vcp, 0, 5),
            Op::RingByte(b'h'),
            Op::RingByte(b'e'),
            Op::RingByte(b'l'),
            Op::RingByte(b'l'),
            Op::RingByte(b'o'),
        ]
    );
    assert_eq!(app.response(5), b"hello");
    assert_eq!(app.drain_vcp(&mut sim), 0);
    assert_eq!(app.vcp.last_idx_rx, 5);
}
