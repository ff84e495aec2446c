use hs_probe::bits::test_bit;
use hs_probe::board::{Board, Line, Op, OutputType, PinMode, Port, Pull, Speed};
use hs_probe::delay::Delay;
use hs_probe::gpio::{MemoisedMode, PinIndex, PinState, Pins, GPIO};
use hs_probe::rcc::{voltage_for, Clocks, CoreFrequency, VoltageScale};
use hs_probe::sim::{line_index, SimBoard};
use hs_probe::spi::{SPIPrescaler, SpiBus, SPI};
use hs_probe::uart::{baud_settings, copy_into, ring_read, UART};
use hs_probe::vcp::{ParityType, StopBits, VcpConfig, VCP};
use hs_probe::{DAP1_PACKET_SIZE, DAP2_PACKET_SIZE, VCP_PACKET_SIZE};

#[test]
fn packet_sizes_are_those_of_the_protocol() {
    assert_eq!(DAP1_PACKET_SIZE, 64);
    assert_eq!(DAP2_PACKET_SIZE, 512);
    assert_eq!(VCP_PACKET_SIZE, 512);
}

#[test]
fn bits_count_from_the_low_end() {
    assert!(test_bit(0b0000_0001, 0));
    assert!(!test_bit(0b0000_0001, 1));
    assert!(test_bit(0b1000_0000, 7));
    assert!(!test_bit(0b0111_1111, 7));
}

#[test]
fn bus_clocks_follow_the_prescalers() {
    let clocks = Clocks::new(216_000_000, 0, 0b101, 0b100);
    assert_eq!(clocks.hclk(), 216_000_000);
    assert_eq!(clocks.pclk1(), 54_000_000);
    assert_eq!(clocks.pclk2(), 108_000_000);
    let clocks = Clocks::new(72_000_000, 0b1000, 0b110, 0b111);
    assert_eq!(clocks.hclk(), 36_000_000);
    assert_eq!(clocks.pclk1(), 4_500_000);
    assert_eq!(clocks.pclk2(), 2_250_000);
    let dividers = [
        (0b1001u32, 4u32),
        (0b1010, 8),
        (0b1011, 16),
        (0b1100, 64),
        (0b1101, 128),
        (0b1110, 256),
        (0b1111, 512),
        (0b0111, 1),
    ];
    for (field, divider) in dividers {
        assert_eq!(Clocks::new(512_000, field, 0, 0).hclk(), 512_000 / divider);
    }
}

#[test]
fn clock_settings_reach_the_core_frequency() {
    for frequency in [
        CoreFrequency::F48MHz,
        CoreFrequency::F72MHz,
        CoreFrequency::F216MHz,
    ] {
        let s = frequency.settings();
        assert_eq!(12_000_000 / s.pllm * s.plln / (2 * s.pllp + 2), s.sysclk);
        assert_eq!(12_000_000 / s.pllm * s.plln / s.pllq, 48_000_000);
    }
    let s = CoreFrequency::F72MHz.settings();
    assert_eq!(s.sysclk, 72_000_000);
    assert_eq!((s.ppre1, s.ppre2, s.plln, s.flash_latency), (0b100, 0, 144, 2));
    assert_eq!(voltage_for(72_000_000), (VoltageScale::Scale3, false));
    assert_eq!(voltage_for(144_000_001), (VoltageScale::Scale2, false));
    assert_eq!(voltage_for(168_000_001), (VoltageScale::Scale1, false));
    assert_eq!(voltage_for(216_000_000), (VoltageScale::Scale1, true));
}

#[test]
fn prescaler_never_exceeds_the_frequency_asked() {
    let clocks = Clocks::new(72_000_000, 0, 0b100, 0);
    let mut spi = SPI::new(SpiBus::Spi1);
    assert_eq!(spi.calculate_prescaler(1_000_000), None);
    spi.set_base_clock(&clocks);
    assert_eq!(spi.base_clock, 72_000_000);
    assert_eq!(spi.which(), SpiBus::Spi1);
    let cases = [
        (u32::MAX, Some(SPIPrescaler::Div2)),
        (36_000_000, Some(SPIPrescaler::Div2)),
        (35_999_999, Some(SPIPrescaler::Div4)),
        (18_000_000, Some(SPIPrescaler::Div4)),
        (9_000_000, Some(SPIPrescaler::Div8)),
        (4_500_000, Some(SPIPrescaler::Div16)),
        (2_250_000, Some(SPIPrescaler::Div32)),
        (1_125_000, Some(SPIPrescaler::Div64)),
        (1_124_999, Some(SPIPrescaler::Div128)),
        (562_500, Some(SPIPrescaler::Div128)),
        (281_250, Some(SPIPrescaler::Div256)),
        (281_249, None),
        (0, None),
    ];
    for (frequency, prescaler) in cases {
        assert_eq!(spi.calculate_prescaler(frequency), prescaler);
    }
    let mut spi2 = SPI::new(SpiBus::Spi2);
    spi2.set_base_clock(&clocks);
    assert_eq!(spi2.base_clock, 36_000_000);
}

#[test]
fn delay_counts_in_ticks_of_the_core_clock() {
    let clocks = Clocks::new(72_000_000, 0, 0b100, 0);
    let mut delay = Delay::new();
    assert_eq!(delay.base_clock, 0);
    delay.set_sysclk(&clocks);
    assert_eq!(delay.calc_period_ticks(1_000_000), Some(72));
    assert_eq!(delay.calc_period_ticks(7_000_000), Some(10));
    assert_eq!(delay.calc_period_ticks(100_000_000), Some(0));
    // Half periods are rounded up: 72 MHz over twice 7 MHz is 5 and a bit,
    // and six ticks twice make a clock of 6 MHz.
    assert_eq!(delay.half_period_ticks(1_000_000), Some(36));
    assert_eq!(delay.half_period_ticks(7_000_000), Some(6));
    assert_eq!(delay.half_period_ticks(36_000_000), Some(1));
    assert_eq!(delay.half_period_ticks(100_000_000), Some(1));
    assert_eq!(delay.half_period_ticks(u32::MAX), Some(1));
    assert_eq!(delay.half_period_ticks(1), Some(36_000_000));
    // A clock of 0 Hz has no period.
    assert_eq!(delay.calc_period_ticks(0), None);
    assert_eq!(delay.half_period_ticks(0), None);
    assert_eq!(delay.ticks_for_us(1), 72);
    assert_eq!(delay.ticks_for_us(9_999), 719_928);
    let mut sim = SimBoard::new();
    delay.delay_us(&mut sim, 50);
    assert_eq!(sim.ops(), vec![Op::Wait(3600)]);
}

#[test]
fn waiting_goes_by_the_down_counter() {
    // The counter fell from 1000 to 900: 100 ticks have passed.
    assert_eq!(Delay::wait_step(100, 1000, 900), None);
    assert_eq!(Delay::wait_step(101, 1000, 900), Some(1));
    assert_eq!(Delay::wait_step(0, 5, 5), None);
    // The counter wrapped round from 5 to 0xff_fffb: 10 ticks.
    assert_eq!(Delay::wait_step(10, 5, 0xff_fffb), None);
    assert_eq!(Delay::wait_step(50, 5, 0xff_fffb), Some(40));
}

#[test]
fn baud_divider_is_even_and_at_least_sixteen() {
    assert_eq!(baud_settings(72_000_000, 115_200), (1250, 0x4E1));
    assert_eq!(baud_settings(72_000_000, 1_000_000), (144, 0x90));
    // 144 MHz / 7 MHz is 20 and a bit.
    assert_eq!(baud_settings(72_000_000, 7_000_000), (20, 0x12));
    // 41 is rounded down to 40.
    assert_eq!(baud_settings(20_500, 1_000), (40, 0x24));
    assert_eq!(baud_settings(72_000_000, u32::MAX), (16, 0x10));
    assert_eq!(baud_settings(1, 1), (16, 0x10));
}

#[test]
fn copy_lands_where_it_is_told() {
    let mut dst = [0u8; 6];
    copy_into(&mut dst, 2, &[1, 2, 3, 4, 5], 1, 3);
    assert_eq!(dst, [0, 0, 2, 3, 4, 0]);
    copy_into(&mut dst, 6, &[9], 1, 0);
    assert_eq!(dst, [0, 0, 2, 3, 4, 0]);
}

#[test]
fn ring_is_read_up_to_the_receiver() {
    let ring: Vec<u8> = (0..16).collect();
    let mut rx = [0xEEu8; 8];
    // Nothing has come in.
    assert_eq!(ring_read(&ring, 3, 3, &mut rx), (0, 3));
    assert_eq!(rx, [0xEE; 8]);
    // New bytes before the end.
    assert_eq!(ring_read(&ring, 3, 6, &mut rx), (3, 6));
    assert_eq!(rx, [3, 4, 5, 0xEE, 0xEE, 0xEE, 0xEE, 0xEE]);
    // More than fit.
    assert_eq!(ring_read(&ring, 2, 15, &mut rx), (8, 10));
    assert_eq!(rx, [2, 3, 4, 5, 6, 7, 8, 9]);
    // Up to the end of the ring: the reader's index stays there.
    let mut rx = [0xEEu8; 8];
    assert_eq!(ring_read(&ring, 12, 16, &mut rx), (4, 16));
    assert_eq!(&rx[..4], &[12, 13, 14, 15]);
    // From the end of the ring on, after the receiver wrapped round.
    assert_eq!(ring_read(&ring, 16, 2, &mut rx), (2, 2));
    assert_eq!(&rx[..2], &[0, 1]);
}

#[test]
fn ring_is_read_round_its_end() {
    let ring: Vec<u8> = (0..16).collect();
    // Both parts fit.
    let mut rx = [0xEEu8; 8];
    assert_eq!(ring_read(&ring, 14, 3, &mut rx), (5, 3));
    assert_eq!(rx, [14, 15, 0, 1, 2, 0xEE, 0xEE, 0xEE]);
    // The first part does not fit.
    let mut rx = [0xEEu8; 3];
    assert_eq!(ring_read(&ring, 10, 3, &mut rx), (3, 13));
    assert_eq!(rx, [10, 11, 12]);
    // The first part fits exactly: the reader starts over.
    let mut rx = [0xEEu8; 2];
    assert_eq!(ring_read(&ring, 14, 3, &mut rx), (2, 0));
    assert_eq!(rx, [14, 15]);
    // The second part does not fit.
    let mut rx = [0xEEu8; 4];
    assert_eq!(ring_read(&ring, 14, 5, &mut rx), (4, 2));
    assert_eq!(rx, [14, 15, 0, 1]);
    // The receiver stands at the start.
    let mut rx = [0xEEu8; 4];
    assert_eq!(ring_read(&ring, 14, 0, &mut rx), (2, 0));
    assert_eq!(rx, [14, 15, 0xEE, 0xEE]);
}

#[test]
fn trace_receiver_reads_its_ring() {
    let clocks = Clocks::new(72_000_000, 0, 0b100, 0);
    let mut uart = UART::new();
    uart.setup(&clocks);
    assert_eq!(uart.fck, 72_000_000);
    assert_eq!(uart.buffer_len(), 256);
    let mut sim = SimBoard::new();
    assert!(!uart.is_active(&mut sim));
    uart.start(&mut sim);
    assert!(uart.is_active(&mut sim));
    assert_eq!(uart.bytes_available(&mut sim), 0);
    let bytes: Vec<u8> = (0..200).collect();
    sim.receive(Port::Swo, &bytes);
    assert_eq!(uart.bytes_available(&mut sim), 200);
    let mut rx = [0u8; 150];
    assert_eq!(uart.read(&mut sim, &mut rx), 150);
    assert_eq!(&rx[..], &bytes[..150]);
    assert_eq!(uart.bytes_available(&mut sim), 50);
    // 100 more bytes wrap round the end of the ring of 256.
    sim.receive(Port::Swo, &bytes[..100]);
    assert_eq!(uart.bytes_available(&mut sim), 150);
    let mut rx = [0u8; 256];
    assert_eq!(uart.read(&mut sim, &mut rx), 150);
    assert_eq!(&rx[..50], &bytes[150..]);
    assert_eq!(&rx[50..150], &bytes[..100]);
    assert_eq!(uart.last_idx, 44);
    sim.forget();
    uart.start(&mut sim);
    assert_eq!(uart.last_idx, 0);
    assert_eq!(uart.set_baud(&mut sim, 2_000_000), 2_000_000);
    assert_eq!(uart.set_baud(&mut sim, 3_000_000), 3_000_000);
    assert_eq!(uart.set_baud(&mut sim, 5_000_000), 5_142_857);
    // A rate of 0 is not set.
    assert_eq!(uart.set_baud(&mut sim, 0), 0);
    uart.stop(&mut sim);
    assert_eq!(
        sim.ops(),
        vec![
            Op::UartStart(Port::Swo),
            Op::UartDivider(Port::Swo, 0x44),
            Op::UartDivider(Port::Swo, 0x30),
            Op::UartDivider(Port::Swo, 0x16),
            Op::UartStop(Port::Swo),
        ]
    );
    assert!(!uart.is_active(&mut sim));
    assert_eq!(sim.ops().last(), Some(&Op::UartActive(Port::Swo, false)));
}

#[test]
fn serial_port_is_set_up_for_a_line_coding() {
    let clocks = Clocks::new(72_000_000, 0, 0b100, 0);
    let mut vcp = VCP::new();
    let mut sim = SimBoard::new();
    vcp.setup(&mut sim, &clocks);
    assert_eq!(vcp.fck, 36_000_000);
    assert_eq!(
        sim.ops(),
        vec![
            Op::PinSpeed(Line::Usart2Tx, Speed::VeryHigh),
            Op::PinOutputType(Line::Usart2Tx, OutputType::PushPull),
            Op::PinPull(Line::Usart2Tx, Pull::Up),
            Op::PinMode(Line::Usart2Tx, PinMode::Alternate),
            Op::PinFunction(Line::Usart2Tx, 7),
            Op::PinSpeed(Line::Usart2Rx, Speed::VeryHigh),
            Op::PinOutputType(Line::Usart2Rx, OutputType::PushPull),
            Op::PinPull(Line::Usart2Rx, Pull::Up),
            Op::PinMode(Line::Usart2Rx, PinMode::Alternate),
            Op::PinFunction(Line::Usart2Rx, 7),
            Op::UartListen(Port::Vcp),
        ]
    );
    sim.forget();
    vcp.set_config(
        &mut sim,
        VcpConfig {
            stop_bits: StopBits::Two,
            data_bits: 7,
            parity_type: ParityType::Odd,
            data_rate: 9600,
        },
    );
    // 72 MHz / 9600 = 7500 = 0x1D4C.
    assert_eq!(
        sim.ops(),
        vec![
            Op::UartDivider(Port::Vcp, 0x1D46),
            Op::UartWordLength(Port::Vcp, true, false),
            Op::UartStopBits(Port::Vcp, 0b10),
            Op::UartParityOn(Port::Vcp, true),
        ]
    );
    let codings = [
        (StopBits::One, 8u8, ParityType::Disabled),
        (StopBits::OnePointFive, 9, ParityType::Event),
        (StopBits::One, 8, ParityType::Mark),
        (StopBits::One, 8, ParityType::Space),
    ];
    let expected = [
        vec![
            Op::UartWordLength(Port::Vcp, false, false),
            Op::UartStopBits(Port::Vcp, 0b00),
            Op::UartParityOff(Port::Vcp),
        ],
        vec![
            Op::UartWordLength(Port::Vcp, false, true),
            Op::UartStopBits(Port::Vcp, 0b11),
            Op::UartParityOn(Port::Vcp, false),
        ],
        vec![
            Op::UartWordLength(Port::Vcp, false, false),
            Op::UartStopBits(Port::Vcp, 0b00),
        ],
        vec![
            Op::UartWordLength(Port::Vcp, false, false),
            Op::UartStopBits(Port::Vcp, 0b00),
        ],
    ];
    for ((stop_bits, data_bits, parity_type), ops) in codings.into_iter().zip(expected) {
        sim.forget();
        vcp.set_config(
            &mut sim,
            VcpConfig {
                stop_bits,
                data_bits,
                parity_type,
                data_rate: 72_000_000,
            },
        );
        assert_eq!(sim.ops()[0], Op::UartDivider(Port::Vcp, 0x10));
        assert_eq!(&sim.ops()[1..], &ops[..]);
    }
}

#[test]
fn serial_port_passes_bytes_both_ways() {
    let mut vcp = VCP::new();
    let mut sim = SimBoard::new();
    vcp.start(&mut sim);
    assert!(vcp.is_tx_idle(&mut sim));
    sim.set_tx_idle(false);
    assert!(!vcp.is_tx_idle(&mut sim));
    assert_eq!(
        sim.ops(),
        vec![
            Op::UartStart(Port::Vcp),
            Op::UartIdle(Port::Vcp, true),
            Op::UartIdle(Port::Vcp, false),
        ]
    );
    sim.forget();
    vcp.write(&mut sim, &[b'h', b'i'], 2);
    assert_eq!(
        sim.ops(),
        vec![Op::UartSend(Port::Vcp, 2), Op::Sent(b'h'), Op::Sent(b'i')]
    );
    assert_eq!(vcp.rx_bytes_available(&mut sim), 0);
    let bytes: Vec<u8> = (0..250).collect();
    sim.receive(Port::Vcp, &bytes);
    sim.receive(Port::Vcp, &bytes);
    assert_eq!(vcp.rx_bytes_available(&mut sim), 500);
    let mut rx = [0u8; 512];
    assert_eq!(vcp.read(&mut sim, &mut rx), 500);
    assert_eq!(&rx[..250], &bytes[..]);
    assert_eq!(&rx[250..500], &bytes[..]);
    sim.receive(Port::Vcp, &bytes[..20]);
    assert_eq!(vcp.rx_bytes_available(&mut sim), 20);
    assert_eq!(vcp.read(&mut sim, &mut rx), 20);
    assert_eq!(&rx[..20], &bytes[..20]);
    assert_eq!(vcp.last_idx_rx, 8);
    vcp.stop(&mut sim);
    assert_eq!(sim.ops().last(), Some(&Op::UartStop(Port::Vcp)));
    assert_eq!(
        VcpConfig::default(),
        VcpConfig {
            stop_bits: StopBits::One,
            data_bits: 8,
            parity_type: ParityType::Disabled,
            data_rate: 8_000,
        }
    );
}

#[test]
fn lines_take_their_roles_by_mode() {
    let mut sim = SimBoard::new();
    Pins::swd_mode(&mut sim);
    assert_eq!(
        sim.ops(),
        vec![
            Op::PinMode(Line::Reset, PinMode::Output),
            Op::PinMode(Line::Usart1Rx, PinMode::Alternate),
            Op::PinMode(Line::Spi2Clk, PinMode::Input),
            Op::PinMode(Line::Spi2Miso, PinMode::Input),
            Op::PinMode(Line::Spi2Mosi, PinMode::Input),
            Op::PinMode(Line::Spi1Clk, PinMode::Alternate),
            Op::PinMode(Line::Spi1Miso, PinMode::Alternate),
            Op::PinMode(Line::Spi1Mosi, PinMode::Alternate),
        ]
    );
    sim.forget();
    Pins::jtag_mode(&mut sim);
    assert_eq!(
        sim.ops(),
        vec![
            Op::PinMode(Line::Reset, PinMode::Output),
            Op::PinMode(Line::Usart1Rx, PinMode::Input),
            Op::PinMode(Line::Spi1Clk, PinMode::Input),
            Op::PinMode(Line::Spi1Miso, PinMode::Input),
            Op::PinMode(Line::Spi1Mosi, PinMode::Output),
            Op::PinMode(Line::Spi2Clk, PinMode::Output),
            Op::PinMode(Line::Spi2Miso, PinMode::Input),
            Op::PinMode(Line::Spi2Mosi, PinMode::Output),
        ]
    );
    sim.forget();
    Pins::swd_rx(&mut sim);
    Pins::swd_tx(&mut sim);
    Pins::swd_tx_direct(&mut sim);
    Pins::swd_clk_direct(&mut sim);
    Pins::swd_clk_spi(&mut sim);
    assert_eq!(
        sim.ops(),
        vec![
            Op::PinMode(Line::Spi1Mosi, PinMode::Input),
            Op::PinMode(Line::Spi1Mosi, PinMode::Alternate),
            Op::PinMode(Line::Spi1Mosi, PinMode::Output),
            Op::PinMode(Line::Spi1Clk, PinMode::Output),
            Op::PinMode(Line::Spi1Clk, PinMode::Alternate),
        ]
    );
}

#[test]
fn setup_prepares_every_line() {
    let mut sim = SimBoard::new();
    Pins::setup(&mut sim);
    let ops = sim.ops();
    assert_eq!(ops.len(), 6 * 4 + 2 + 2 + 3 + 4 + 4 * 4 + 2 * 2 + 2 * 4 + 4);
    assert_eq!(
        &ops[..4],
        &[
            Op::PinWrite(Line::LedRed, true),
            Op::PinOutputType(Line::LedRed, OutputType::OpenDrain),
            Op::PinSpeed(Line::LedRed, Speed::Low),
            Op::PinMode(Line::LedRed, PinMode::Output),
        ]
    );
    assert_eq!(
        &ops[20..28],
        &[
            Op::PinWrite(Line::Reset, true),
            Op::PinOutputType(Line::Reset, OutputType::OpenDrain),
            Op::PinSpeed(Line::Reset, Speed::High),
            Op::PinMode(Line::Reset, PinMode::Output),
            Op::PinPull(Line::GndDetect, Pull::Up),
            Op::PinMode(Line::GndDetect, PinMode::Input),
            Op::PinFunction(Line::Usart1Rx, 7),
            Op::PinMode(Line::Usart1Rx, PinMode::Input),
        ]
    );
    assert_eq!(
        &ops[ops.len() - 8..],
        &[
            Op::PinFunction(Line::UsbDp, 12),
            Op::PinOutputType(Line::UsbDp, OutputType::PushPull),
            Op::PinSpeed(Line::UsbDp, Speed::VeryHigh),
            Op::PinMode(Line::UsbDp, PinMode::Alternate),
            Op::PinWrite(Line::UsbSel, true),
            Op::PinOutputType(Line::UsbSel, OutputType::PushPull),
            Op::PinSpeed(Line::UsbSel, Speed::Low),
            Op::PinMode(Line::UsbSel, PinMode::Output),
        ]
    );
    // Every debug line ends up released.
    for line in [
        Line::Spi1Clk,
        Line::Spi1Miso,
        Line::Spi1Mosi,
        Line::Spi2Clk,
        Line::Spi2Miso,
        Line::Spi2Mosi,
    ] {
        let last = ops
            .iter()
            .rev()
            .find(|op| matches!(op, Op::PinMode(l, _) if *l == line));
        assert_eq!(last, Some(&Op::PinMode(line, PinMode::Input)));
    }
}

#[test]
fn pin_registers_take_one_field_each() {
    assert_eq!(GPIO::pin(0), PinIndex::Pin0);
    assert_eq!(GPIO::pin(9), PinIndex::Pin9);
    assert_eq!(GPIO::pin(15), PinIndex::Pin15);
    assert_eq!(PinIndex::Pin13.index(), 13);
    assert_eq!(GPIO::set_high(PinIndex::Pin3), 0x0000_0008);
    assert_eq!(GPIO::set_low(PinIndex::Pin3), 0x0008_0000);
    assert_eq!(GPIO::set_low(PinIndex::Pin15), 0x8000_0000);
    assert_eq!(GPIO::get_pin_idr(0x0000_8001, PinIndex::Pin15), 1);
    assert_eq!(GPIO::get_pin_idr(0x0000_8001, PinIndex::Pin14), 0);
    assert_eq!(GPIO::get_state(0x0000_0010, PinIndex::Pin4), PinState::High);
    assert_eq!(GPIO::get_state(0x0000_0010, PinIndex::Pin5), PinState::Low);
    assert_eq!(GPIO::toggle(0x0000_0010, PinIndex::Pin4), 0x0010_0000);
    assert_eq!(GPIO::toggle(0x0000_0010, PinIndex::Pin5), 0x0000_0020);
    assert_eq!(GPIO::set_mode(0xFFFF_FFFF, PinIndex::Pin2, 0b01), 0xFFFF_FFDF);
    assert_eq!(GPIO::set_mode(0, PinIndex::Pin15, 0b10), 0x8000_0000);
    // Only the low bits of a value go into its field.
    assert_eq!(GPIO::set_mode(0, PinIndex::Pin0, 0b111), 0b11);
    assert_eq!(GPIO::set_otype(0, PinIndex::Pin7, 1), 0x80);
    assert_eq!(GPIO::set_otype(0xFFFF, PinIndex::Pin7, 0), 0xFF7F);
    assert_eq!(GPIO::set_ospeed(0, PinIndex::Pin1, 0b11), 0b1100);
    assert_eq!(GPIO::set_pull(0xF, PinIndex::Pin1, 0b01), 0b0111);
    assert_eq!(GPIO::set_af(0, PinIndex::Pin3, 7), 0x7000);
    assert_eq!(GPIO::set_af(0, PinIndex::Pin11, 12), 0xC000);
    assert_eq!(GPIO::set_af(0xFFFF_FFFF, PinIndex::Pin8, 5), 0xFFFF_FFF5);
}

#[test]
fn memoised_mode_sets_what_set_mode_sets() {
    for n in 0..16u8 {
        let pin = GPIO::pin(n);
        for (mode, memo) in [
            (0b00u32, GPIO::memoise_mode_input(pin)),
            (0b01, GPIO::memoise_mode_output(pin)),
            (0b10, GPIO::memoise_mode_alternate(pin)),
            (0b11, GPIO::memoise_mode_analog(pin)),
        ] {
            assert_eq!(memo, GPIO::memoise_mode(pin, mode));
            for moder in [0u32, 0xFFFF_FFFF, 0x1234_5678] {
                assert_eq!(
                    GPIO::apply_memoised_mode(moder, memo),
                    GPIO::set_mode(moder, pin, mode)
                );
            }
        }
    }
    assert_eq!(
        GPIO::memoise_mode(PinIndex::Pin1, 0b10),
        MemoisedMode {
            mask: 0xFFFF_FFF3,
            value: 0b1000
        }
    );
}

#[test]
fn simulated_lines_keep_their_levels() {
    let mut sim = SimBoard::new();
    assert_eq!(line_index(Line::LedRed), 0);
    assert_eq!(line_index(Line::UsbSel), 18);
    assert!(!sim.level_of(Line::Reset));
    sim.pin_write(Line::Reset, true);
    assert!(sim.level_of(Line::Reset));
    assert!(sim.pin_read(Line::Reset));
    sim.set_level(Line::Reset, false);
    assert!(!sim.pin_read(Line::Reset));
    // TDO follows TDI only where the two are wired together.
    sim.pin_write(Line::Spi2Mosi, true);
    assert!(!sim.pin_read(Line::Spi2Miso));
    sim.set_loopback(true);
    sim.pin_write(Line::Spi2Mosi, true);
    assert!(sim.pin_read(Line::Spi2Miso));
    let mut rx = [0u8; 4];
    sim.jtag_exchange(SpiBus::Spi2, &[1, 2], &mut rx);
    assert_eq!(rx, [1, 2, 0, 0]);
    sim.set_loopback(false);
    sim.jtag_exchange(SpiBus::Spi2, &[1, 2], &mut rx);
    assert_eq!(rx, [0xFF, 0xFF, 0, 0]);
    assert_eq!(sim.now(), 0);
    sim.delay_ticks(16);
    assert_eq!(sim.now(), 0xff_fff0);
    assert_eq!(sim.delay_ticks_from_last(16, 100), 84);
}
