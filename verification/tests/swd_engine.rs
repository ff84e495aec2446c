use hs_probe::board::{Line, Op, PinMode};
use hs_probe::delay::Delay;
use hs_probe::rcc::Clocks;
use hs_probe::sim::SimBoard;
use hs_probe::spi::{SPIPrescaler, SpiBus, SPI};
use hs_probe::swd::{APnDP, DPRegister, Error, RnW, SWD};

fn engine() -> SWD {
    let clocks = Clocks::new(72_000_000, 0, 0b100, 0);
    let mut spi = SPI::new(SpiBus::Spi1);
    spi.set_base_clock(&clocks);
    let mut delay = Delay::new();
    delay.set_sysclk(&clocks);
    SWD::new(spi, delay)
}

fn requests(sim: &SimBoard) -> usize {
    sim.ops()
        .iter()
        .filter(|op| matches!(op, Op::SpiTx8(_, _)))
        .count()
}

#[test]
fn request_bytes_carry_parity() {
    assert_eq!(SWD::make_request(APnDP::DP, RnW::R, 0), 0xA5);
    assert_eq!(SWD::make_request(APnDP::AP, RnW::W, 3), 0xBB);
    assert_eq!(SWD::make_request(APnDP::DP, RnW::W, 0), 0x81);
    assert_eq!(SWD::make_request(APnDP::AP, RnW::R, 3), 0x9F);
}

#[test]
fn port_follows_the_request_bit() {
    assert_eq!(APnDP::from(true), APnDP::AP);
    assert_eq!(APnDP::from(false), APnDP::DP);
    assert_eq!(DPRegister::RDBUFF.address(), 3);
    assert_eq!(DPRegister::DPIDR.address(), 0);
}

#[test]
fn write_then_read_round_trips() {
    let swd = engine();
    let mut sim = SimBoard::new();
    assert!(sim.is_honest());
    assert_eq!(swd.write_dp(&mut sim, 2, 0xDEAD_BEEF), Ok(()));
    assert_eq!(sim.dp(2), 0xDEAD_BEEF);
    assert_eq!(swd.read_dp(&mut sim, 2), Ok(0xDEAD_BEEF));
    assert_eq!(requests(&sim), 2);
    // Nothing but transfers has happened to the board.
    assert!(sim.is_honest());
    for a in 0..4u8 {
        for word in [0u32, 1, 0x8000_0000, 0xFFFF_FFFF, 0x1234_5678] {
            assert_eq!(swd.write_dp(&mut sim, a, word), Ok(()));
            assert_eq!(swd.read_dp(&mut sim, a), Ok(word));
        }
    }
    assert!(sim.is_honest());
}

#[test]
fn a_board_set_by_hand_is_not_honest() {
    let mut sim = SimBoard::new();
    sim.set_level(Line::Reset, true);
    sim.set_loopback(true);
    assert!(sim.is_honest());
    sim.set_dp(0, 1);
    assert!(!sim.is_honest());
    let mut sim = SimBoard::new();
    sim.script_acks(vec![0b010]);
    assert!(!sim.is_honest());
    let mut sim = SimBoard::new();
    sim.spoil_parity(true);
    assert!(!sim.is_honest());
    let mut sim = SimBoard::new();
    sim.forget();
    assert!(!sim.is_honest());
}

#[test]
fn read_performs_the_turnarounds_in_order() {
    let swd = engine();
    let mut sim = SimBoard::new();
    sim.set_dp(1, 7);
    assert_eq!(swd.read_dp(&mut sim, 1), Ok(7));
    assert_eq!(
        sim.ops(),
        vec![
            Op::SpiTx8(SpiBus::Spi1, 0x8D),
            Op::SpiWaitBusy(SpiBus::Spi1),
            Op::SpiDrain(SpiBus::Spi1),
            Op::PinMode(Line::Spi1Mosi, PinMode::Input),
            Op::SpiRx4(SpiBus::Spi1, 0b0010),
            Op::SwdReadData(SpiBus::Spi1, 7, 1),
            Op::PinMode(Line::Spi1Mosi, PinMode::Alternate),
        ]
    );
}

#[test]
fn write_hands_over_data_and_parity() {
    let swd = engine();
    let mut sim = SimBoard::new();
    assert_eq!(swd.write_ap(&mut sim, 1, 0x0000_0003), Ok(()));
    assert_eq!(sim.ap(1), 3);
    assert_eq!(
        sim.ops(),
        vec![
            Op::SpiTx8(SpiBus::Spi1, 0x8B),
            Op::SpiWaitBusy(SpiBus::Spi1),
            Op::SpiDrain(SpiBus::Spi1),
            Op::PinMode(Line::Spi1Mosi, PinMode::Input),
            Op::SpiRx5(SpiBus::Spi1, 0b0010),
            Op::PinMode(Line::Spi1Mosi, PinMode::Alternate),
            Op::SwdWriteData(SpiBus::Spi1, 3, 0),
            Op::SpiWaitBusy(SpiBus::Spi1),
        ]
    );
}

#[test]
fn waiting_target_is_tried_as_often_as_set() {
    let mut swd = engine();
    let mut sim = SimBoard::new();
    sim.script_acks(vec![0b010; 40]);
    assert_eq!(swd.read_dp(&mut sim, 0), Err(Error::AckWait));
    assert_eq!(requests(&sim), 8);

    sim.forget();
    swd.set_wait_retries(3);
    assert_eq!(swd.write_dp(&mut sim, 0, 1), Err(Error::AckWait));
    assert_eq!(requests(&sim), 3);

    sim.forget();
    swd.set_wait_retries(0);
    assert_eq!(swd.read_ap(&mut sim, 0), Err(Error::AckWait));
    assert_eq!(requests(&sim), 0);
}

#[test]
fn wait_is_retried_until_the_target_answers() {
    let swd = engine();
    let mut sim = SimBoard::new();
    sim.set_dp(0, 0x1234);
    sim.script_acks(vec![0b010, 0b010, 0b001]);
    assert_eq!(swd.read_dp(&mut sim, 0), Ok(0x1234));
    assert_eq!(requests(&sim), 3);
}

#[test]
fn failed_read_releases_the_bus() {
    let swd = engine();
    let mut sim = SimBoard::new();
    sim.script_acks(vec![0b100]);
    assert_eq!(swd.read_dp(&mut sim, 0), Err(Error::AckFault));
    assert_eq!(
        sim.ops(),
        vec![
            Op::SpiTx8(SpiBus::Spi1, 0xA5),
            Op::SpiWaitBusy(SpiBus::Spi1),
            Op::SpiDrain(SpiBus::Spi1),
            Op::PinMode(Line::Spi1Mosi, PinMode::Input),
            Op::SpiRx4(SpiBus::Spi1, 0b1000),
            Op::PinMode(Line::Spi1Mosi, PinMode::Alternate),
            Op::SpiTx4(SpiBus::Spi1, 0),
        ]
    );
}

#[test]
fn every_error_has_its_input() {
    let swd = engine();
    let mut sim = SimBoard::new();
    sim.script_acks(vec![0b100, 0b111, 0b011, 0b000]);
    assert_eq!(swd.write_dp(&mut sim, 0, 0), Err(Error::AckFault));
    assert_eq!(swd.write_dp(&mut sim, 0, 0), Err(Error::AckProtocol));
    assert_eq!(swd.write_dp(&mut sim, 0, 0), Err(Error::AckUnknown(0b011)));
    assert_eq!(swd.read_dp(&mut sim, 0), Err(Error::AckUnknown(0)));
    sim.spoil_parity(true);
    assert_eq!(swd.read_dp(&mut sim, 0), Err(Error::BadParity));
    sim.spoil_parity(false);
    assert_eq!(swd.read_dp(&mut sim, 0), Ok(0));
}

#[test]
fn access_port_reads_are_posted() {
    let swd = engine();
    let mut sim = SimBoard::new();
    sim.set_ap(2, 0xCAFE);
    sim.set_dp(3, 0x1111);
    assert_eq!(swd.read_ap(&mut sim, 2), Ok(0x1111));
    assert_eq!(swd.read_dp(&mut sim, DPRegister::RDBUFF.address()), Ok(0xCAFE));
}

#[test]
fn clock_takes_the_smallest_divider_that_fits() {
    let mut swd = engine();
    let mut sim = SimBoard::new();
    assert!(swd.set_clock(&mut sim, 1_000_000));
    assert_eq!(
        sim.ops(),
        vec![Op::SpiPrescaler(SpiBus::Spi1, SPIPrescaler::Div128)]
    );
    assert_eq!(swd.half_period_ticks, 36);
    sim.forget();
    assert!(!swd.set_clock(&mut sim, 1000));
    assert_eq!(sim.ops(), vec![]);
    assert_eq!(swd.half_period_ticks, 36_000);
}

#[test]
fn sequence_is_clocked_out_by_hand() {
    let swd = engine();
    let mut sim = SimBoard::new();
    swd.tx_sequence(&mut sim, &[0b0000_0101, 0xFF], 3);
    let bit = |level: bool| {
        vec![
            Op::PinWrite(Line::Spi1Mosi, level),
            Op::PinWrite(Line::Spi1Clk, false),
            Op::Wait(10000),
            Op::PinWrite(Line::Spi1Clk, true),
            Op::Wait(10000),
        ]
    };
    let mut expected = vec![
        Op::PinMode(Line::Spi1Mosi, PinMode::Output),
        Op::PinMode(Line::Spi1Clk, PinMode::Output),
        Op::Wait(10000),
    ];
    expected.extend(bit(true));
    expected.extend(bit(false));
    expected.extend(bit(true));
    expected.push(Op::PinMode(Line::Spi1Mosi, PinMode::Alternate));
    expected.push(Op::PinMode(Line::Spi1Clk, PinMode::Alternate));
    assert_eq!(sim.ops(), expected);
}

#[test]
fn sequence_stops_where_the_data_ends() {
    let swd = engine();
    let mut sim = SimBoard::new();
    swd.tx_sequence(&mut sim, &[0xFF], 50);
    let clocks = sim
        .ops()
        .iter()
        .filter(|op| matches!(op, Op::PinWrite(Line::Spi1Clk, true)))
        .count();
    assert_eq!(clocks, 8);
}

#[test]
fn line_reset_holds_the_line_high_for_fifty_six_clocks() {
    let swd = engine();
    let mut sim = SimBoard::new();
    swd.line_reset(&mut sim);
    let ops = sim.ops();
    let data: Vec<bool> = ops
        .iter()
        .filter_map(|op| match op {
            Op::PinWrite(Line::Spi1Mosi, level) => Some(*level),
            _ => None,
        })
        .collect();
    assert_eq!(data, vec![true; 56]);
    assert_eq!(ops.len(), 3 + 56 * 5 + 2);
}

#[test]
fn jtag_to_swd_sends_the_switching_sequence() {
    let swd = engine();
    let mut sim = SimBoard::new();
    swd.jtag_to_swd(&mut sim);
    let data: Vec<bool> = sim
        .ops()
        .iter()
        .filter_map(|op| match op {
            Op::PinWrite(Line::Spi1Mosi, level) => Some(*level),
            _ => None,
        })
        .collect();
    assert_eq!(data.len(), 136);
    assert!(data[..56].iter().all(|level| *level));
    // 0xE79E, low bit first.
    let switch: Vec<bool> = (0..16).map(|i| (0xE79Eu16 >> i) & 1 == 1).collect();
    assert_eq!(&data[56..72], &switch[..]);
    assert!(data[72..128].iter().all(|level| *level));
    assert!(data[128..].iter().all(|level| !*level));
}

#[test]
fn a_clock_of_zero_cannot_be_set() {
    let mut swd = engine();
    let mut sim = SimBoard::new();
    assert!(swd.set_clock(&mut sim, 1_000_000));
    sim.forget();
    assert!(!swd.set_clock(&mut sim, 0));
    assert_eq!(sim.ops(), vec![]);
    assert_eq!(swd.half_period_ticks, 36);
}
