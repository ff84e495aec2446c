use hs_probe::board::{Line, Op, PinMode, Port};
use hs_probe::dap::{DAPMode, DAPVersion, DAP};
use hs_probe::delay::Delay;
use hs_probe::jtag::JTAG;
use hs_probe::rcc::Clocks;
use hs_probe::sim::SimBoard;
use hs_probe::spi::{SPIPrescaler, SpiBus, SPI};
use hs_probe::swd::SWD;
use hs_probe::uart::UART;

fn probe() -> DAP {
    let clocks = Clocks::new(72_000_000, 0, 0b100, 0);
    let mut spi1 = SPI::new(SpiBus::Spi1);
    spi1.set_base_clock(&clocks);
    let mut spi2 = SPI::new(SpiBus::Spi2);
    spi2.set_base_clock(&clocks);
    let mut delay = Delay::new();
    delay.set_sysclk(&clocks);
    let mut dap = DAP::new(
        SWD::new(spi1, delay),
        JTAG::new(spi2, delay),
        UART::new(),
        b"v0.1-3".to_vec(),
    );
    dap.setup(&clocks);
    dap
}

/// Runs one request through the processor and returns the response.
fn run(dap: &mut DAP, sim: &mut SimBoard, report: &[u8], version: DAPVersion) -> Vec<u8> {
    let mut rbuf = match version {
        DAPVersion::V1 => vec![0xEEu8; 64],
        DAPVersion::V2 => vec![0xEEu8; 512],
    };
    if !report.is_empty() {
        assert!(dap.can_process(report, rbuf.len(), version));
    }
    let n = dap.process_command(sim, report, &mut rbuf, version);
    rbuf.truncate(n);
    rbuf
}

fn v1(dap: &mut DAP, sim: &mut SimBoard, report: &[u8]) -> Vec<u8> {
    run(dap, sim, report, DAPVersion::V1)
}

fn requests(sim: &SimBoard) -> usize {
    sim.ops()
        .iter()
        .filter(|op| matches!(op, Op::SpiTx8(_, _)))
        .count()
}

#[test]
fn empty_request_has_no_response() {
    let mut dap = probe();
    let mut sim = SimBoard::new();
    assert_eq!(v1(&mut dap, &mut sim, &[]), vec![]);
    assert_eq!(run(&mut dap, &mut sim, &[], DAPVersion::V2), vec![]);
    assert_eq!(sim.ops(), vec![]);
    assert_eq!(dap.mode, None);
}

#[test]
fn unknown_opcode_is_answered_as_unimplemented() {
    let mut dap = probe();
    let mut sim = SimBoard::new();
    for opcode in [0x0Bu8, 0x15, 0x16, 0x1D, 0x7E, 0x7F, 0x80, 0xFE, 0xFF] {
        assert_eq!(v1(&mut dap, &mut sim, &[opcode, 1, 2, 3]), vec![0xFF]);
    }
    assert_eq!(sim.ops(), vec![]);
}

#[test]
fn info_reports_what_the_probe_is() {
    let mut dap = probe();
    let mut sim = SimBoard::new();
    for id in [0x01u8, 0x02, 0x03, 0x05, 0x06, 0xF1, 0x77] {
        assert_eq!(v1(&mut dap, &mut sim, &[0x00, id]), vec![0x00, 0]);
    }
    assert_eq!(
        v1(&mut dap, &mut sim, &[0x00, 0x04]),
        vec![0x00, 6, b'v', b'0', b'.', b'1', b'-', b'3']
    );
    assert_eq!(v1(&mut dap, &mut sim, &[0x00, 0xF0]), vec![0x00, 1, 0b0100_0111]);
    assert_eq!(v1(&mut dap, &mut sim, &[0x00, 0xFD]), vec![0x00, 4, 0, 1, 0, 0]);
    assert_eq!(v1(&mut dap, &mut sim, &[0x00, 0xFE]), vec![0x00, 1, 1]);
    assert_eq!(v1(&mut dap, &mut sim, &[0x00, 0xFF]), vec![0x00, 2, 64, 0]);
    assert_eq!(
        run(&mut dap, &mut sim, &[0x00, 0xFF], DAPVersion::V2),
        vec![0x00, 2, 0, 2]
    );
    assert_eq!(sim.ops(), vec![]);
}

#[test]
fn host_status_sets_the_leds() {
    let mut dap = probe();
    let mut sim = SimBoard::new();
    assert_eq!(v1(&mut dap, &mut sim, &[0x01, 0, 1]), vec![0x01, 0]);
    assert_eq!(
        sim.ops(),
        vec![
            Op::PinWrite(Line::LedRed, true),
            Op::PinWrite(Line::LedGreen, false)
        ]
    );
    sim.forget();
    assert_eq!(v1(&mut dap, &mut sim, &[0x01, 0, 0]), vec![0x01, 0]);
    assert_eq!(
        sim.ops(),
        vec![
            Op::PinWrite(Line::LedRed, false),
            Op::PinWrite(Line::LedGreen, true)
        ]
    );
    sim.forget();
    assert_eq!(v1(&mut dap, &mut sim, &[0x01, 1, 1]), vec![0x01, 0]);
    assert_eq!(v1(&mut dap, &mut sim, &[0x01, 0, 2]), vec![0x01, 0]);
    assert_eq!(sim.ops(), vec![]);
}

#[test]
fn connect_enters_the_mode_asked_for() {
    let mut dap = probe();
    let mut sim = SimBoard::new();
    assert_eq!(v1(&mut dap, &mut sim, &[0x02, 0]), vec![0x02, 1]);
    assert_eq!(dap.mode, Some(DAPMode::SWD));
    assert_eq!(sim.ops().last(), Some(&Op::SpiSetupSwd(SpiBus::Spi1)));
    assert_eq!(sim.ops().len(), 9);
    assert_eq!(v1(&mut dap, &mut sim, &[0x02, 2]), vec![0x02, 2]);
    assert_eq!(dap.mode, Some(DAPMode::JTAG));
    assert_eq!(sim.ops().last(), Some(&Op::SpiSetupJtag(SpiBus::Spi2)));
    assert_eq!(v1(&mut dap, &mut sim, &[0x02, 1]), vec![0x02, 1]);
    assert_eq!(dap.mode, Some(DAPMode::SWD));
}

#[test]
fn connect_to_an_invalid_port_fails() {
    let mut dap = probe();
    let mut sim = SimBoard::new();
    for port in [3u8, 4, 0x80, 0xFF] {
        assert_eq!(v1(&mut dap, &mut sim, &[0x02, port]), vec![0x02, 0]);
        assert_eq!(dap.mode, None);
    }
    assert_eq!(sim.ops(), vec![]);
    assert_eq!(v1(&mut dap, &mut sim, &[0x02, 2]), vec![0x02, 2]);
    assert_eq!(v1(&mut dap, &mut sim, &[0x02, 3]), vec![0x02, 0]);
    assert_eq!(dap.mode, Some(DAPMode::JTAG));
}

#[test]
fn disconnect_twice_is_as_good_as_once() {
    let mut dap = probe();
    let mut sim = SimBoard::new();
    assert_eq!(v1(&mut dap, &mut sim, &[0x03]), vec![0x03, 0]);
    assert_eq!(dap.mode, None);
    assert_eq!(v1(&mut dap, &mut sim, &[0x02, 1]), vec![0x02, 1]);
    assert_eq!(v1(&mut dap, &mut sim, &[0x03]), vec![0x03, 0]);
    assert_eq!(dap.mode, None);
    sim.forget();
    assert_eq!(v1(&mut dap, &mut sim, &[0x03]), vec![0x03, 0]);
    assert_eq!(dap.mode, None);
    assert_eq!(
        sim.ops(),
        vec![
            Op::PinWrite(Line::Reset, true),
            Op::PinMode(Line::Reset, PinMode::Output),
            Op::PinMode(Line::Usart1Rx, PinMode::Input),
            Op::PinMode(Line::Spi1Clk, PinMode::Input),
            Op::PinMode(Line::Spi1Miso, PinMode::Input),
            Op::PinMode(Line::Spi1Mosi, PinMode::Input),
            Op::PinMode(Line::Spi2Clk, PinMode::Input),
            Op::PinMode(Line::Spi2Miso, PinMode::Input),
            Op::PinMode(Line::Spi2Mosi, PinMode::Input),
            Op::SpiDisable(SpiBus::Spi1),
            Op::SpiDisable(SpiBus::Spi2),
        ]
    );
}

#[test]
fn write_abort_needs_a_connection() {
    let mut dap = probe();
    let mut sim = SimBoard::new();
    assert_eq!(v1(&mut dap, &mut sim, &[0x08, 0, 1, 0, 0, 0]), vec![0x08, 0xFF]);
    assert_eq!(sim.ops(), vec![]);
    v1(&mut dap, &mut sim, &[0x02, 1]);
    sim.forget();
    assert_eq!(
        v1(&mut dap, &mut sim, &[0x08, 0, 0x1E, 0, 0, 0]),
        vec![0x08, 0x00]
    );
    assert_eq!(sim.dp(0), 0x1E);
    assert_eq!(requests(&sim), 1);
    sim.script_acks(vec![0b100]);
    assert_eq!(
        v1(&mut dap, &mut sim, &[0x08, 0, 0x1E, 0, 0, 0]),
        vec![0x08, 0xFF]
    );
}

#[test]
fn delay_spins_for_the_time_asked() {
    let mut dap = probe();
    let mut sim = SimBoard::new();
    assert_eq!(v1(&mut dap, &mut sim, &[0x09, 0x10, 0x01]), vec![0x09, 0]);
    assert_eq!(sim.ops(), vec![Op::Spin(48 * 272)]);
}

#[test]
fn reset_target_knows_no_sequence() {
    let mut dap = probe();
    let mut sim = SimBoard::new();
    assert_eq!(v1(&mut dap, &mut sim, &[0x0A]), vec![0x0A, 0, 0]);
    assert_eq!(sim.ops(), vec![]);
}

#[test]
fn pins_are_set_by_mode_and_read_back() {
    let mut dap = probe();
    let mut sim = SimBoard::new();
    // Not connected: only the reset line can be set.
    sim.set_level(Line::Spi1Clk, true);
    sim.set_level(Line::Spi2Miso, true);
    assert_eq!(
        v1(&mut dap, &mut sim, &[0x10, 0x80, 0x87, 2, 0, 0, 0]),
        vec![0x10, 0x80 | 0x20 | 0x08 | 0x01]
    );
    assert_eq!(
        sim.ops(),
        vec![
            Op::PinWrite(Line::Reset, true),
            Op::Spin(84),
            Op::PinRead(Line::Spi1Clk, true),
            Op::PinRead(Line::Spi1Miso, false),
            Op::PinRead(Line::Spi2Mosi, false),
            Op::PinRead(Line::Spi2Miso, true),
            Op::PinRead(Line::Reset, true),
        ]
    );

    // SWD: the clock and data lines are taken from the peripheral.
    let mut sim = SimBoard::new();
    v1(&mut dap, &mut sim, &[0x02, 1]);
    sim.forget();
    assert_eq!(
        v1(&mut dap, &mut sim, &[0x10, 0x03, 0x07, 0, 0, 0, 0]),
        vec![0x10, 0x20 | 0x01]
    );
    assert_eq!(
        &sim.ops()[..5],
        &[
            Op::PinMode(Line::Spi1Mosi, PinMode::Output),
            Op::PinWrite(Line::Spi1Mosi, true),
            Op::PinMode(Line::Spi1Clk, PinMode::Output),
            Op::PinWrite(Line::Spi1Clk, true),
            Op::Spin(0),
        ]
    );

    // JTAG: the pins hold the lines already, and TDI can be set too.
    let mut sim = SimBoard::new();
    sim.set_loopback(true);
    v1(&mut dap, &mut sim, &[0x02, 2]);
    sim.forget();
    assert_eq!(
        v1(&mut dap, &mut sim, &[0x10, 0x06, 0x07, 0, 0, 0, 0]),
        vec![0x10, 0x20 | 0x08 | 0x04]
    );
    assert_eq!(
        &sim.ops()[..4],
        &[
            Op::PinWrite(Line::Spi1Mosi, true),
            Op::PinWrite(Line::Spi2Clk, false),
            Op::PinWrite(Line::Spi2Mosi, true),
            Op::Spin(0),
        ]
    );
}

#[test]
fn clock_is_set_on_both_engines() {
    let mut dap = probe();
    let mut sim = SimBoard::new();
    // 1 MHz.
    assert_eq!(
        v1(&mut dap, &mut sim, &[0x11, 0x40, 0x42, 0x0F, 0x00]),
        vec![0x11, 0]
    );
    assert_eq!(
        sim.ops(),
        vec![
            Op::SpiPrescaler(SpiBus::Spi2, SPIPrescaler::Div64),
            Op::SpiPrescaler(SpiBus::Spi1, SPIPrescaler::Div128),
        ]
    );
    assert!(!dap.jtag.use_bitbang);
    assert_eq!(dap.swd.half_period_ticks, 36);
    assert_eq!(dap.jtag.half_period_ticks, 36);
    // 1 kHz: no divider reaches it.
    sim.forget();
    assert_eq!(
        v1(&mut dap, &mut sim, &[0x11, 0xE8, 0x03, 0x00, 0x00]),
        vec![0x11, 0xFF]
    );
    assert_eq!(sim.ops(), vec![]);
    assert!(dap.jtag.use_bitbang);
}

#[test]
fn sequence_goes_out_by_the_engine_in_force() {
    let mut dap = probe();
    let mut sim = SimBoard::new();
    assert_eq!(v1(&mut dap, &mut sim, &[0x12, 8, 0xFF]), vec![0x12, 0xFF]);
    assert_eq!(sim.ops(), vec![]);

    v1(&mut dap, &mut sim, &[0x02, 1]);
    sim.forget();
    assert_eq!(v1(&mut dap, &mut sim, &[0x12, 8, 0xFF]), vec![0x12, 0]);
    assert_eq!(sim.ops().len(), 3 + 8 * 5 + 2);
    assert_eq!(sim.ops()[0], Op::PinMode(Line::Spi1Mosi, PinMode::Output));

    // The payload is too short for the bits announced.
    sim.forget();
    assert_eq!(v1(&mut dap, &mut sim, &[0x12, 9, 0xFF]), vec![0x12, 0xFF]);
    assert_eq!(sim.ops(), vec![]);

    // A count of 0 stands for 256 bits.
    let mut long = vec![0x12u8, 0];
    long.extend([0xAAu8; 32]);
    assert_eq!(v1(&mut dap, &mut sim, &long), vec![0x12, 0]);
    assert_eq!(sim.ops().len(), 3 + 256 * 5 + 2);

    v1(&mut dap, &mut sim, &[0x02, 2]);
    sim.forget();
    assert_eq!(v1(&mut dap, &mut sim, &[0x12, 2, 0x01]), vec![0x12, 0]);
    assert_eq!(sim.ops().len(), 4 + 1 + 2 * 5);
    assert_eq!(sim.ops()[5], Op::PinWrite(Line::Spi1Mosi, true));
}

#[test]
fn swd_configure_takes_the_default_only() {
    let mut dap = probe();
    let mut sim = SimBoard::new();
    assert_eq!(v1(&mut dap, &mut sim, &[0x13, 0]), vec![0x13, 0]);
    assert_eq!(v1(&mut dap, &mut sim, &[0x13, 0xF8]), vec![0x13, 0]);
    assert_eq!(v1(&mut dap, &mut sim, &[0x13, 1]), vec![0x13, 0xFF]);
    assert_eq!(v1(&mut dap, &mut sim, &[0x13, 4]), vec![0x13, 0xFF]);
}

#[test]
fn swo_is_set_up_and_reported() {
    let mut dap = probe();
    let mut sim = SimBoard::new();
    assert_eq!(v1(&mut dap, &mut sim, &[0x17, 2]), vec![0x17, 0]);
    assert!(dap.swo_streaming);
    assert!(!dap.is_swo_streaming(&mut sim));
    assert_eq!(v1(&mut dap, &mut sim, &[0x17, 1]), vec![0x17, 0]);
    assert!(!dap.swo_streaming);
    assert_eq!(v1(&mut dap, &mut sim, &[0x17, 0]), vec![0x17, 0]);
    assert_eq!(v1(&mut dap, &mut sim, &[0x17, 3]), vec![0x17, 0xFF]);

    assert_eq!(v1(&mut dap, &mut sim, &[0x18, 0]), vec![0x18, 0]);
    assert_eq!(v1(&mut dap, &mut sim, &[0x18, 1]), vec![0x18, 0]);
    assert_eq!(v1(&mut dap, &mut sim, &[0x18, 2]), vec![0x18, 0xFF]);

    // 115200 baud divides 144 MHz by 1250.
    sim.forget();
    assert_eq!(
        v1(&mut dap, &mut sim, &[0x19, 0x00, 0xC2, 0x01, 0x00]),
        vec![0x19, 0x00, 0xC2, 0x01, 0x00]
    );
    assert_eq!(
        sim.ops(),
        vec![Op::UartDivider(Port::Swo, (1250 & 0xFFF0) | ((1250 & 0xF) >> 1))]
    );
    // 1 MHz asked for, 144 MHz / 144: as asked.
    assert_eq!(
        v1(&mut dap, &mut sim, &[0x19, 0x40, 0x42, 0x0F, 0x00]),
        vec![0x19, 0x40, 0x42, 0x0F, 0x00]
    );
    // 7 MHz asked for: 144 MHz / 20.
    assert_eq!(
        v1(&mut dap, &mut sim, &[0x19, 0xC0, 0xCF, 0x6A, 0x00]),
        vec![0x19, 0x00, 0xDD, 0x6D, 0x00]
    );
    // Faster than the receiver can go: the divider stays at 16.
    assert_eq!(
        v1(&mut dap, &mut sim, &[0x19, 0x00, 0x00, 0x00, 0x10]),
        vec![0x19, 0x40, 0x54, 0x89, 0x00]
    );

    sim.forget();
    assert_eq!(v1(&mut dap, &mut sim, &[0x1B]), vec![0x1B, 0, 0, 0, 0, 0]);
    assert_eq!(
        sim.ops(),
        vec![Op::UartActive(Port::Swo, false), Op::UartHead(Port::Swo, 0)]
    );
    sim.forget();
    assert_eq!(v1(&mut dap, &mut sim, &[0x1A, 1]), vec![0x1A, 0]);
    assert_eq!(v1(&mut dap, &mut sim, &[0x1A, 2]), vec![0x1A, 0xFF]);
    assert_eq!(sim.ops(), vec![Op::UartStart(Port::Swo)]);
    sim.receive(Port::Swo, &[9, 8, 7, 6, 5]);
    assert_eq!(v1(&mut dap, &mut sim, &[0x1B]), vec![0x1B, 1, 5, 0, 0, 0]);
    assert_eq!(
        v1(&mut dap, &mut sim, &[0x1E]),
        vec![0x1E, 1, 5, 0, 0, 0, 0, 0, 0, 0, 0, 0, 0, 0]
    );
    assert_eq!(v1(&mut dap, &mut sim, &[0x17, 2]), vec![0x17, 0]);
    assert!(dap.is_swo_streaming(&mut sim));
    assert_eq!(v1(&mut dap, &mut sim, &[0x1A, 0]), vec![0x1A, 0]);
    assert!(!dap.is_swo_streaming(&mut sim));
    assert_eq!(v1(&mut dap, &mut sim, &[0x1B]), vec![0x1B, 0, 5, 0, 0, 0]);
}

#[test]
fn swo_data_returns_what_is_there() {
    let mut dap = probe();
    let mut sim = SimBoard::new();
    v1(&mut dap, &mut sim, &[0x1A, 1]);
    sim.receive(Port::Swo, &[1, 2, 3]);
    // More asked for than waits.
    sim.forget();
    assert_eq!(
        v1(&mut dap, &mut sim, &[0x1C, 10, 0]),
        vec![0x1C, 1, 3, 0, 1, 2, 3]
    );
    assert_eq!(
        sim.ops(),
        vec![
            Op::UartActive(Port::Swo, true),
            Op::UartHead(Port::Swo, 3),
            Op::RingCopy(Port::Swo, 0, 3),
            Op::RingByte(1),
            Op::RingByte(2),
            Op::RingByte(3),
        ]
    );
    // Nothing left.
    assert_eq!(v1(&mut dap, &mut sim, &[0x1C, 10, 0]), vec![0x1C, 1, 0, 0]);
    // Fewer asked for than wait.
    sim.receive(Port::Swo, &[4, 5, 6, 7]);
    assert_eq!(
        v1(&mut dap, &mut sim, &[0x1C, 2, 0]),
        vec![0x1C, 1, 2, 0, 4, 5]
    );
    assert_eq!(v1(&mut dap, &mut sim, &[0x1C, 0, 0]), vec![0x1C, 1, 0, 0]);
    assert_eq!(
        v1(&mut dap, &mut sim, &[0x1C, 0xFF, 0xFF]),
        vec![0x1C, 1, 2, 0, 6, 7]
    );
}

#[test]
fn swo_data_is_cut_to_the_packet_and_wraps_round_the_ring() {
    let mut dap = probe();
    let mut sim = SimBoard::new();
    v1(&mut dap, &mut sim, &[0x1A, 1]);
    let first: Vec<u8> = (0..250u32).map(|i| i as u8).collect();
    sim.receive(Port::Swo, &first);
    // A packet of 64 bytes holds 60 bytes of trace.
    let resp = v1(&mut dap, &mut sim, &[0x1C, 0xFF, 0x00]);
    assert_eq!(resp.len(), 64);
    assert_eq!(&resp[..4], &[0x1C, 1, 60, 0]);
    assert_eq!(&resp[4..], &first[..60]);
    let resp = run(&mut dap, &mut sim, &[0x1C, 0xFF, 0x00], DAPVersion::V2);
    assert_eq!(&resp[..4], &[0x1C, 1, 190, 0]);
    assert_eq!(&resp[4..], &first[60..]);
    // Ten more bytes come in and wrap round the end of the ring.
    sim.receive(Port::Swo, &[10, 11, 12, 13, 14, 15, 16, 17, 18, 19]);
    sim.forget();
    assert_eq!(
        v1(&mut dap, &mut sim, &[0x1C, 0xFF, 0x00]),
        vec![0x1C, 1, 10, 0, 10, 11, 12, 13, 14, 15, 16, 17, 18, 19]
    );
    let copies: Vec<Op> = sim
        .ops()
        .into_iter()
        .filter(|op| matches!(op, Op::RingCopy(_, _, _) | Op::UartHead(_, _)))
        .collect();
    assert_eq!(
        copies,
        vec![
            Op::UartHead(Port::Swo, 4),
            Op::RingCopy(Port::Swo, 250, 6),
            Op::RingCopy(Port::Swo, 0, 4),
        ]
    );
}

#[test]
fn jtag_sequence_needs_jtag_mode() {
    let mut dap = probe();
    let mut sim = SimBoard::new();
    sim.set_loopback(true);
    assert_eq!(
        v1(&mut dap, &mut sim, &[0x14, 1, 0x88, 0x3C]),
        vec![0x14, 0xFF]
    );
    v1(&mut dap, &mut sim, &[0x02, 1]);
    assert_eq!(
        v1(&mut dap, &mut sim, &[0x14, 1, 0x88, 0x3C]),
        vec![0x14, 0xFF]
    );
    v1(&mut dap, &mut sim, &[0x02, 2]);
    assert_eq!(
        v1(&mut dap, &mut sim, &[0x14, 1, 0x88, 0x3C]),
        vec![0x14, 0x00, 0x3C]
    );
    assert_eq!(v1(&mut dap, &mut sim, &[0x14, 0]), vec![0x14, 0x00]);
    assert_eq!(v1(&mut dap, &mut sim, &[0x14]), vec![0x14, 0x00]);
    assert_eq!(
        v1(&mut dap, &mut sim, &[0x14, 2, 0x08, 0x3C, 0x84, 0x0F]),
        vec![0x14, 0x00, 0x0F]
    );
    // A request that lacks a part of what it names is acknowledged, and
    // nothing is shifted.
    sim.forget();
    assert_eq!(
        v1(&mut dap, &mut sim, &[0x14, 2, 0x88, 0xAA, 0x88]),
        vec![0x14, 0x00]
    );
    assert_eq!(sim.ops(), vec![]);
}

#[test]
fn transfer_configure_sets_the_retries() {
    let mut dap = probe();
    let mut sim = SimBoard::new();
    assert_eq!(dap.match_retries, 5);
    assert_eq!(dap.swd.wait_retries, 8);
    assert_eq!(
        v1(&mut dap, &mut sim, &[0x04, 7, 0x10, 0x01, 0x20, 0x00]),
        vec![0x04, 0]
    );
    assert_eq!(dap.swd.wait_retries, 0x110);
    assert_eq!(dap.match_retries, 0x20);
}

#[test]
fn transfer_stops_at_the_first_fault() {
    let mut dap = probe();
    let mut sim = SimBoard::new();
    v1(&mut dap, &mut sim, &[0x02, 1]);
    sim.set_dp(0, 0x0BB1_1477);
    sim.script_acks(vec![0b001, 0b100]);
    sim.forget();
    // Three reads of debug port registers 0, 1 and 2.
    assert_eq!(
        v1(&mut dap, &mut sim, &[0x05, 0, 3, 0x02, 0x06, 0x0A]),
        vec![0x05, 2, 4, 0x77, 0x14, 0xB1, 0x0B]
    );
    assert_eq!(requests(&sim), 2);
}

#[test]
fn transfer_reads_and_writes_in_order() {
    let mut dap = probe();
    let mut sim = SimBoard::new();
    v1(&mut dap, &mut sim, &[0x02, 1]);
    sim.set_ap(3, 0xA5A5_0001);
    sim.forget();
    // Write 0x12345678 to debug port register 2, read it back, and read
    // access port register 3.
    assert_eq!(
        v1(
            &mut dap,
            &mut sim,
            &[0x05, 0, 3, 0x08, 0x78, 0x56, 0x34, 0x12, 0x0A, 0x0F]
        ),
        vec![0x05, 3, 1, 0x78, 0x56, 0x34, 0x12, 0x01, 0x00, 0xA5, 0xA5]
    );
    assert_eq!(sim.dp(2), 0x1234_5678);
    // One write, one read, and two transfers for the posted read.
    assert_eq!(requests(&sim), 4);
    assert_eq!(sim.ops()[0], Op::PinMode(Line::Spi1Clk, PinMode::Alternate));
    assert_eq!(sim.ops()[1], Op::PinMode(Line::Spi1Mosi, PinMode::Alternate));
}

#[test]
fn transfer_of_nothing_reports_nothing() {
    let mut dap = probe();
    let mut sim = SimBoard::new();
    assert_eq!(v1(&mut dap, &mut sim, &[0x05, 0, 0]), vec![0x05, 0, 0]);
    assert_eq!(requests(&sim), 0);
}

#[test]
fn transfer_matches_values_under_the_mask() {
    let mut dap = probe();
    let mut sim = SimBoard::new();
    v1(&mut dap, &mut sim, &[0x02, 1]);
    sim.set_dp(1, 0xF000_0005);
    sim.forget();
    // The value matches at once: nothing is put into the response.
    assert_eq!(
        v1(&mut dap, &mut sim, &[0x05, 0, 1, 0x16, 0x05, 0, 0, 0xF0]),
        vec![0x05, 1, 1]
    );
    assert_eq!(requests(&sim), 1);
    // It does not match: the read is repeated five times, then the
    // mismatch is flagged in the status and the read after it is not made.
    sim.forget();
    assert_eq!(
        v1(&mut dap, &mut sim, &[0x05, 0, 2, 0x16, 0x06, 0, 0, 0xF0, 0x02]),
        vec![0x05, 1, 1 | 0x10]
    );
    assert_eq!(requests(&sim), 6);
    // Under a mask it matches again.
    sim.forget();
    assert_eq!(
        v1(
            &mut dap,
            &mut sim,
            &[0x05, 0, 3, 0x20, 0x0F, 0, 0, 0, 0x16, 0x05, 0, 0, 0, 0x06]
        ),
        vec![0x05, 3, 1, 0x05, 0x00, 0x00, 0xF0]
    );
    assert_eq!(requests(&sim), 2);
    // A repeat that fails ends the command with the status of the failure
    // and the mismatch flag.
    sim.forget();
    sim.script_acks(vec![0b001, 0b001, 0b100]);
    assert_eq!(
        v1(&mut dap, &mut sim, &[0x05, 0, 1, 0x16, 0x06, 0, 0, 0xF0]),
        vec![0x05, 1, 4 | 0x10]
    );
    assert_eq!(requests(&sim), 3);
    // No repeats allowed.
    sim.forget();
    v1(&mut dap, &mut sim, &[0x04, 0, 8, 0, 0, 0]);
    assert_eq!(
        v1(&mut dap, &mut sim, &[0x05, 0, 1, 0x16, 0x06, 0, 0, 0xF0]),
        vec![0x05, 1, 1 | 0x10]
    );
    assert_eq!(requests(&sim), 1);
}

#[test]
fn mismatch_is_flagged_in_the_status_not_in_the_count() {
    let mut dap = probe();
    let mut sim = SimBoard::new();
    v1(&mut dap, &mut sim, &[0x02, 1]);
    // One matched read of a register that holds 0, for the value 1.
    sim.set_dp(0, 0);
    assert_eq!(
        v1(&mut dap, &mut sim, &[0x05, 0, 1, 0x12, 1, 0, 0, 0]),
        vec![0x05, 0x01, 0x11]
    );
    // Seventeen transfers, the last of which does not match: the count
    // is 17, which has bit 4 set by itself, and the flag is in the status.
    let mut report = vec![0x05u8, 0, 17];
    for _ in 0..16 {
        report.extend([0x20u8, 0xFF, 0xFF, 0xFF, 0xFF]);
    }
    report.extend([0x12u8, 1, 0, 0, 0]);
    let mut rbuf = vec![0u8; 512];
    assert!(dap.can_process(&report, rbuf.len(), DAPVersion::V2));
    let n = dap.process_command(&mut sim, &report, &mut rbuf, DAPVersion::V2);
    assert_eq!(&rbuf[..n], &[0x05, 17, 0x11]);
}

#[test]
fn transfer_reports_each_status() {
    let mut dap = probe();
    let mut sim = SimBoard::new();
    v1(&mut dap, &mut sim, &[0x02, 1]);
    let cases: [(Vec<u8>, u8); 5] = [
        (vec![0b010; 8], 2),
        (vec![0b100], 4),
        (vec![0b111], 0x0F),
        (vec![0b110], 0x0F),
        (vec![0b001], 1),
    ];
    for (acks, status) in cases {
        sim.script_acks(acks);
        let resp = v1(&mut dap, &mut sim, &[0x05, 0, 1, 0x04, 1, 0, 0, 0]);
        assert_eq!(resp, vec![0x05, 1, status]);
    }
    sim.spoil_parity(true);
    assert_eq!(
        v1(&mut dap, &mut sim, &[0x05, 0, 1, 0x02]),
        vec![0x05, 1, 0x0F]
    );
}

#[test]
fn block_of_access_port_reads_posts_one_read_ahead() {
    let mut dap = probe();
    let mut sim = SimBoard::new();
    v1(&mut dap, &mut sim, &[0x02, 1]);
    sim.set_ap(0, 0x1122_3344);
    for n in 1u8..6 {
        sim.forget();
        let resp = v1(&mut dap, &mut sim, &[0x06, 0, n, 0, 0x03]);
        let mut expected = vec![0x06, n, 0, 1];
        for _ in 0..n {
            expected.extend([0x44, 0x33, 0x22, 0x11]);
        }
        assert_eq!(resp, expected);
        assert_eq!(requests(&sim), n as usize + 1);
    }
}

#[test]
fn block_reports_how_far_it_got() {
    let mut dap = probe();
    let mut sim = SimBoard::new();
    v1(&mut dap, &mut sim, &[0x02, 1]);
    // Three writes to debug port register 1, the third faults.
    sim.script_acks(vec![0b001, 0b001, 0b100]);
    sim.forget();
    assert_eq!(
        v1(
            &mut dap,
            &mut sim,
            &[0x06, 0, 4, 0, 0x04, 1, 0, 0, 0, 2, 0, 0, 0, 3, 0, 0, 0, 4, 0, 0, 0]
        ),
        vec![0x06, 3, 0, 4]
    );
    assert_eq!(sim.dp(1), 2);
    assert_eq!(requests(&sim), 3);
    // The posted read fails: one transfer, no data.
    sim.script_acks(vec![0b100]);
    assert_eq!(
        v1(&mut dap, &mut sim, &[0x06, 0, 4, 0, 0x03]),
        vec![0x06, 1, 0, 4]
    );
    // Reads of a debug port register go straight to it.
    sim.forget();
    sim.set_dp(2, 0x0000_00AB);
    assert_eq!(
        v1(&mut dap, &mut sim, &[0x06, 0, 2, 0, 0x0A]),
        vec![0x06, 2, 0, 1, 0xAB, 0, 0, 0, 0xAB, 0, 0, 0]
    );
    assert_eq!(requests(&sim), 2);
    // A block of nothing reports no transfer.
    sim.forget();
    assert_eq!(
        v1(&mut dap, &mut sim, &[0x06, 0, 0, 0, 0x0A]),
        vec![0x06, 0, 0, 0]
    );
    assert_eq!(requests(&sim), 0);
    assert_eq!(
        v1(&mut dap, &mut sim, &[0x06, 0, 0, 0, 0x08]),
        vec![0x06, 0, 0, 0]
    );
    // Nor is a read of the access port posted for it.
    assert_eq!(
        v1(&mut dap, &mut sim, &[0x06, 0, 0, 0, 0x03]),
        vec![0x06, 0, 0, 0]
    );
    assert_eq!(requests(&sim), 0);
}

#[test]
fn a_clock_of_zero_is_refused_and_changes_nothing() {
    let mut dap = probe();
    let mut sim = SimBoard::new();
    v1(&mut dap, &mut sim, &[0x11, 0x40, 0x42, 0x0F, 0x00]);
    let (swd_half, jtag_half, bitbang) =
        (dap.swd.half_period_ticks, dap.jtag.half_period_ticks, dap.jtag.use_bitbang);
    sim.forget();
    assert_eq!(v1(&mut dap, &mut sim, &[0x11, 0, 0, 0, 0]), vec![0x11, 0xFF]);
    assert_eq!(sim.ops(), vec![]);
    assert_eq!(dap.swd.half_period_ticks, swd_half);
    assert_eq!(dap.jtag.half_period_ticks, jtag_half);
    assert_eq!(dap.jtag.use_bitbang, bitbang);
}

#[test]
fn a_baud_rate_of_zero_is_answered_by_zero() {
    let mut dap = probe();
    let mut sim = SimBoard::new();
    assert_eq!(
        v1(&mut dap, &mut sim, &[0x19, 0, 0, 0, 0]),
        vec![0x19, 0, 0, 0, 0]
    );
    assert_eq!(sim.ops(), vec![]);
}

#[test]
fn the_packet_beyond_the_response_stays_as_it_was() {
    let mut dap = probe();
    let mut sim = SimBoard::new();
    // An opcode that the probe does not know.
    let mut rbuf = [0u8; 64];
    assert_eq!(
        dap.process_command(&mut sim, &[0x1D, 0x01, 0x02], &mut rbuf, DAPVersion::V1),
        1
    );
    assert_eq!(rbuf[0], 0xFF);
    assert_eq!(&rbuf[1..], &[0u8; 63]);
    // A request that is not answered leaves its opcode behind.
    let mut rbuf = [0x55u8; 64];
    assert_eq!(
        dap.process_command(&mut sim, &[0x07], &mut rbuf, DAPVersion::V1),
        0
    );
    assert_eq!(rbuf[0], 0x07);
    assert_eq!(&rbuf[1..], &[0x55u8; 63]);
    // A transfer that reads one word.
    v1(&mut dap, &mut sim, &[0x02, 1]);
    sim.set_dp(1, 0x0102_0304);
    let mut rbuf = [0x55u8; 64];
    assert_eq!(
        dap.process_command(&mut sim, &[0x05, 0, 1, 0x06], &mut rbuf, DAPVersion::V1),
        7
    );
    assert_eq!(&rbuf[..7], &[0x05, 1, 1, 4, 3, 2, 1]);
    assert_eq!(&rbuf[7..], &[0x55u8; 57]);
}

#[test]
fn transfer_abort_is_not_answered() {
    let mut dap = probe();
    let mut sim = SimBoard::new();
    assert_eq!(v1(&mut dap, &mut sim, &[0x07]), vec![]);
    assert_eq!(sim.ops(), vec![]);
}

#[test]
fn requests_that_do_not_fit_are_told_apart() {
    let dap = probe();
    assert!(!dap.can_process(&[0x00], 64, DAPVersion::V1));
    assert!(!dap.can_process(&[0x00, 0x04], 7, DAPVersion::V1));
    assert!(dap.can_process(&[0x00, 0x04], 8, DAPVersion::V1));
    assert!(!dap.can_process(&[0x01, 0], 64, DAPVersion::V1));
    assert!(!dap.can_process(&[0x10, 0, 0, 0, 0, 0], 64, DAPVersion::V1));
    // A wait so long that its cycles do not fit in 32 bits.
    assert!(!dap.can_process(&[0x10, 0, 0, 0, 0, 0, 0x10], 64, DAPVersion::V1));
    assert!(!dap.can_process(&[0x11, 0, 0, 0], 64, DAPVersion::V1));
    assert!(dap.can_process(&[0x11, 0, 0, 0, 0], 64, DAPVersion::V1));
    assert!(!dap.can_process(&[0x19, 0, 0, 0], 64, DAPVersion::V1));
    assert!(dap.can_process(&[0x19, 0, 0, 0, 0], 64, DAPVersion::V1));
    assert!(!dap.can_process(&[0x05, 0, 1], 64, DAPVersion::V1));
    assert!(!dap.can_process(&[0x05, 0, 1, 0x00, 1, 2, 3], 64, DAPVersion::V1));
    assert!(dap.can_process(&[0x05, 0, 1, 0x00, 1, 2, 3, 4], 64, DAPVersion::V1));
    // Sixteen reads fill a packet of 64 bytes beyond its end.
    let mut reads = vec![0x05u8, 0, 16];
    reads.extend([0x02u8; 16]);
    assert!(!dap.can_process(&reads, 64, DAPVersion::V1));
    assert!(dap.can_process(&reads, 512, DAPVersion::V2));
    reads[2] = 15;
    assert!(dap.can_process(&reads, 64, DAPVersion::V1));
    assert!(!dap.can_process(&[0x06, 0, 16, 0, 0x02], 64, DAPVersion::V1));
    assert!(dap.can_process(&[0x06, 0, 15, 0, 0x02], 64, DAPVersion::V1));
    assert!(!dap.can_process(&[0x06, 0, 1, 0, 0x00, 1, 2, 3], 64, DAPVersion::V1));
    assert!(!dap.can_process(&[0x1B], 5, DAPVersion::V1));
    assert!(dap.can_process(&[0x07], 1, DAPVersion::V1));
    assert!(!dap.can_process(&[0x07], 0, DAPVersion::V1));
}
