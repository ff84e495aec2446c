use hs_probe::board::{Line, Op, PinMode};
use hs_probe::delay::Delay;
use hs_probe::jtag::{is_whole, JTAG};
use hs_probe::rcc::Clocks;
use hs_probe::sim::SimBoard;
use hs_probe::spi::{SPIPrescaler, SpiBus, SPI};

fn engine() -> JTAG {
    let clocks = Clocks::new(72_000_000, 0, 0b100, 0);
    let mut spi = SPI::new(SpiBus::Spi2);
    spi.set_base_clock(&clocks);
    let mut delay = Delay::new();
    delay.set_sysclk(&clocks);
    JTAG::new(spi, delay)
}

fn looped() -> SimBoard {
    let mut sim = SimBoard::new();
    sim.set_loopback(true);
    sim
}

fn exchanges(sim: &SimBoard) -> usize {
    sim.ops()
        .iter()
        .filter(|op| matches!(op, Op::Exchange(_, _)))
        .count()
}

fn rising_edges(sim: &SimBoard) -> usize {
    sim.ops()
        .iter()
        .filter(|op| matches!(op, Op::PinWrite(Line::Spi2Clk, true)))
        .count()
}

#[test]
fn capture_of_eight_bits_returns_one_byte() {
    let jtag = engine();
    let mut sim = looped();
    let mut rx = [0u8; 64];
    let n = jtag.sequences(&mut sim, &[1, 0b1000_0000 | 8, 0xA5], &mut rx);
    assert_eq!(n, 1);
    assert_eq!(rx[0], 0xA5);
    assert_eq!(rising_edges(&sim), 8);
    assert_eq!(exchanges(&sim), 0);
}

#[test]
fn bit_banged_capture_samples_before_the_falling_edge() {
    let jtag = engine();
    let mut sim = looped();
    let mut rx = [0u8; 64];
    let n = jtag.sequences(&mut sim, &[1, 0b1100_0000 | 2, 0b10], &mut rx);
    assert_eq!(n, 1);
    assert_eq!(rx[0], 0b10);
    assert_eq!(
        sim.ops(),
        vec![
            Op::Wait(10000),
            Op::PinWrite(Line::Spi1Mosi, true),
            Op::PinWrite(Line::Spi2Mosi, false),
            Op::Wait(10000),
            Op::PinWrite(Line::Spi2Clk, true),
            Op::Wait(10000),
            Op::PinRead(Line::Spi2Miso, false),
            Op::PinWrite(Line::Spi2Clk, false),
            Op::PinWrite(Line::Spi2Mosi, true),
            Op::Wait(10000),
            Op::PinWrite(Line::Spi2Clk, true),
            Op::Wait(10000),
            Op::PinRead(Line::Spi2Miso, true),
            Op::PinWrite(Line::Spi2Clk, false),
        ]
    );
}

#[test]
fn write_only_sequence_captures_nothing() {
    let jtag = engine();
    let mut sim = looped();
    let mut rx = [0x77u8; 64];
    let n = jtag.sequences(&mut sim, &[1, 3, 0b101], &mut rx);
    assert_eq!(n, 0);
    assert_eq!(rx[0], 0x77);
    assert_eq!(
        sim.ops(),
        vec![
            Op::Wait(10000),
            Op::PinWrite(Line::Spi1Mosi, false),
            Op::PinWrite(Line::Spi2Mosi, true),
            Op::Wait(10000),
            Op::PinWrite(Line::Spi2Clk, true),
            Op::Wait(10000),
            Op::PinWrite(Line::Spi2Clk, false),
            Op::PinWrite(Line::Spi2Mosi, false),
            Op::Wait(10000),
            Op::PinWrite(Line::Spi2Clk, true),
            Op::Wait(10000),
            Op::PinWrite(Line::Spi2Clk, false),
            Op::PinWrite(Line::Spi2Mosi, true),
            Op::Wait(10000),
            Op::PinWrite(Line::Spi2Clk, true),
            Op::Wait(10000),
            Op::PinWrite(Line::Spi2Clk, false),
        ]
    );
}

#[test]
fn zero_bits_in_a_header_stand_for_sixty_four() {
    let jtag = engine();
    let mut sim = looped();
    let mut rx = [0u8; 64];
    let n = jtag.sequences(
        &mut sim,
        &[1, 0x80, 1, 2, 3, 4, 5, 6, 7, 8],
        &mut rx,
    );
    assert_eq!(n, 8);
    assert_eq!(&rx[..8], &[1, 2, 3, 4, 5, 6, 7, 8]);
    assert_eq!(rising_edges(&sim), 64);
}

#[test]
fn requests_that_ask_nothing_do_nothing() {
    let jtag = engine();
    let mut sim = looped();
    let mut rx = [0u8; 64];
    assert_eq!(jtag.sequences(&mut sim, &[], &mut rx), 0);
    assert_eq!(jtag.sequences(&mut sim, &[0, 0x88, 1], &mut rx), 0);
    assert_eq!(jtag.sequences(&mut sim, &[3], &mut rx), 0);
    assert_eq!(sim.ops(), vec![]);
}

#[test]
fn a_sequence_cut_short_voids_the_request() {
    let jtag = engine();
    let mut sim = looped();
    let mut rx = [0xEEu8; 64];
    // The second sequence has 16 bits and one byte only.
    assert_eq!(jtag.sequences(&mut sim, &[2, 0x88, 0x5A, 0x90, 0x01], &mut rx), 0);
    // The second sequence has no TDI byte at all.
    assert_eq!(jtag.sequences(&mut sim, &[2, 0x88, 0xAA, 0x88], &mut rx), 0);
    // The second sequence is not there.
    assert_eq!(jtag.sequences(&mut sim, &[2, 0x88, 0xAA], &mut rx), 0);
    assert_eq!(jtag.sequences(&mut sim, &[1, 0x88], &mut rx), 0);
    assert_eq!(sim.ops(), vec![]);
    assert_eq!(rx, [0xEEu8; 64]);
    assert!(!is_whole(&[2, 0x88, 0xAA, 0x88]));
    assert!(!is_whole(&[]));
    assert!(!is_whole(&[0, 0x88, 1]));
    assert!(is_whole(&[2, 0x88, 0xAA, 0x88, 0x55]));
    // Bytes after the last sequence do no harm.
    assert!(is_whole(&[1, 0x88, 0xAA, 0x88]));
    assert_eq!(jtag.sequences(&mut sim, &[1, 0x88, 0xAA, 0x88], &mut rx), 1);
    assert_eq!(rx[0], 0xAA);
}

#[test]
fn capturing_leaves_the_rest_of_the_buffer_alone() {
    let jtag = engine();
    let mut sim = looped();
    let mut rx = [0xEEu8; 64];
    assert_eq!(jtag.sequences(&mut sim, &[1, 0x88, 0xA5], &mut rx), 1);
    assert_eq!(rx[0], 0xA5);
    assert_eq!(&rx[1..], &[0xEEu8; 63]);
    // Three bits are captured into a byte whose other bits are zero.
    let mut rx = [0xEEu8; 64];
    assert_eq!(jtag.sequences(&mut sim, &[1, 0x83, 0xFF], &mut rx), 1);
    assert_eq!(rx[0], 0x07);
    assert_eq!(&rx[1..], &[0xEEu8; 63]);
}

#[test]
fn clock_chooses_between_the_peripheral_and_the_pins() {
    let mut jtag = engine();
    let mut sim = SimBoard::new();
    assert!(jtag.use_bitbang);
    jtag.set_clock(&mut sim, 1_000_000);
    assert!(!jtag.use_bitbang);
    assert_eq!(jtag.half_period_ticks, 36);
    assert_eq!(
        sim.ops(),
        vec![Op::SpiPrescaler(SpiBus::Spi2, SPIPrescaler::Div64)]
    );
    sim.forget();
    jtag.set_clock(&mut sim, 100_000);
    assert!(jtag.use_bitbang);
    assert_eq!(jtag.half_period_ticks, 360);
    assert_eq!(sim.ops(), vec![]);
    // No divider brings 36 MHz down to 130 kHz; by hand, 277 ticks for half
    // a period make a clock just below it.
    jtag.set_clock(&mut sim, 130_000);
    assert!(jtag.use_bitbang);
    assert_eq!(jtag.half_period_ticks, 277);
}

#[test]
fn whole_byte_sequences_of_one_kind_go_out_in_one_exchange() {
    let mut jtag = engine();
    let mut sim = looped();
    jtag.set_clock(&mut sim, 1_000_000);
    sim.forget();
    let mut rx = [0u8; 64];
    let n = jtag.sequences(
        &mut sim,
        &[2, 0x80 | 8, 0x11, 0x80 | 16, 0x22, 0xB3],
        &mut rx,
    );
    assert_eq!(n, 3);
    assert_eq!(&rx[..3], &[0x11, 0x22, 0xB3]);
    assert_eq!(exchanges(&sim), 1);
    assert_eq!(rising_edges(&sim), 0);
    assert_eq!(
        sim.ops(),
        vec![
            Op::Wait(36),
            Op::PinWrite(Line::Spi1Mosi, false),
            Op::PinMode(Line::Spi2Miso, PinMode::Alternate),
            Op::PinMode(Line::Spi2Mosi, PinMode::Alternate),
            Op::PinMode(Line::Spi2Clk, PinMode::Alternate),
            Op::Exchange(SpiBus::Spi2, 3),
            Op::Shifted(0x11, 0x11),
            Op::Shifted(0x22, 0x22),
            Op::Shifted(0xB3, 0xB3),
            Op::PinWrite(Line::Spi2Mosi, true),
            Op::PinMode(Line::Spi2Miso, PinMode::Input),
            Op::PinMode(Line::Spi2Mosi, PinMode::Output),
            Op::PinWrite(Line::Spi2Clk, false),
            Op::PinMode(Line::Spi2Clk, PinMode::Output),
            Op::SpiDisable(SpiBus::Spi2),
        ]
    );
}

#[test]
fn the_exchange_ends_where_the_kind_or_the_length_changes() {
    let mut jtag = engine();
    let mut sim = looped();
    jtag.set_clock(&mut sim, 1_000_000);
    sim.forget();
    let mut rx = [0u8; 64];
    // Eight bits for the peripheral, three bits for the pins, then eight
    // bits that would fit the peripheral but come too late for it.
    let n = jtag.sequences(
        &mut sim,
        &[3, 0x88, 0x11, 0x83, 0x05, 0x88, 0x42],
        &mut rx,
    );
    assert_eq!(n, 3);
    assert_eq!(&rx[..3], &[0x11, 0x05, 0x42]);
    assert_eq!(exchanges(&sim), 1);
    assert_eq!(rising_edges(&sim), 11);
}

#[test]
fn an_exchange_without_capture_leaves_no_bytes() {
    let mut jtag = engine();
    let mut sim = looped();
    jtag.set_clock(&mut sim, 1_000_000);
    sim.forget();
    let mut rx = [0u8; 64];
    let n = jtag.sequences(&mut sim, &[2, 0x08, 0x11, 0x83, 0x06], &mut rx);
    assert_eq!(n, 1);
    assert_eq!(rx[0], 0x06);
    assert_eq!(exchanges(&sim), 1);
}

#[test]
fn tms_sequence_clocks_each_bit() {
    let jtag = engine();
    let mut sim = SimBoard::new();
    jtag.tms_sequence(&mut sim, &[0b01], 2);
    assert_eq!(
        sim.ops(),
        vec![
            Op::PinMode(Line::Spi2Miso, PinMode::Input),
            Op::PinMode(Line::Spi2Mosi, PinMode::Output),
            Op::PinWrite(Line::Spi2Clk, false),
            Op::PinMode(Line::Spi2Clk, PinMode::Output),
            Op::Wait(10000),
            Op::PinWrite(Line::Spi1Mosi, true),
            Op::PinWrite(Line::Spi2Clk, false),
            Op::Wait(10000),
            Op::PinWrite(Line::Spi2Clk, true),
            Op::Wait(10000),
            Op::PinWrite(Line::Spi1Mosi, false),
            Op::PinWrite(Line::Spi2Clk, false),
            Op::Wait(10000),
            Op::PinWrite(Line::Spi2Clk, true),
            Op::Wait(10000),
        ]
    );
}

#[test]
fn transfers_shift_the_bits_asked_for() {
    let jtag = engine();
    let mut sim = looped();
    let mut tdo = [0xEEu8; 4];
    jtag.transfer_rw(&mut sim, 11, &[0xFF, 0xFF], &mut tdo);
    assert_eq!(tdo, [0xFF, 0x07, 0xEE, 0xEE]);
    assert_eq!(rising_edges(&sim), 11);
    sim.forget();
    jtag.transfer_wo(&mut sim, 9, &[0x00, 0x01]);
    assert_eq!(rising_edges(&sim), 9);
}

#[test]
fn capture_buffer_needs_room_for_what_is_captured_only() {
    let jtag = engine();
    let mut sim = looped();
    // Nothing is captured: no room is needed.
    let mut none: [u8; 0] = [];
    assert_eq!(jtag.sequences(&mut sim, &[1, 3, 0b101], &mut none), 0);
    assert_eq!(jtag.sequences(&mut sim, &[], &mut none), 0);
    // One byte is captured of a request of five bytes.
    let mut one = [0u8; 1];
    assert_eq!(
        jtag.sequences(&mut sim, &[2, 0x08, 0xFF, 0x84, 0x09], &mut one),
        1
    );
    assert_eq!(one, [0x09]);
}

#[test]
fn a_clock_of_zero_leaves_the_engine_as_it_was() {
    let mut jtag = engine();
    let mut sim = SimBoard::new();
    jtag.set_clock(&mut sim, 1_000_000);
    assert!(!jtag.use_bitbang);
    sim.forget();
    jtag.set_clock(&mut sim, 0);
    assert_eq!(sim.ops(), vec![]);
    assert!(!jtag.use_bitbang);
    assert_eq!(jtag.half_period_ticks, 36);
}
