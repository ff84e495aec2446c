use hs_probe::app::{App, Reply, Request};
use hs_probe::board::{Board, Line, Op, Port};
use hs_probe::dap::{DAPVersion, DAP};
use hs_probe::delay::Delay;
use hs_probe::jtag::JTAG;
use hs_probe::rcc::Clocks;
use hs_probe::sim::SimBoard;
use hs_probe::spi::{SpiBus, SPI};
use hs_probe::swd::SWD;
use hs_probe::uart::UART;
use hs_probe::vcp::VCP;
use hs_probe::wired::Traced;

fn probe(board: &mut Traced<SimBoard>) -> App {
    let dap = DAP::new(
        SWD::new(SPI::new(SpiBus::Spi1), Delay::new()),
        JTAG::new(SPI::new(SpiBus::Spi2), Delay::new()),
        UART::new(),
        b"wired".to_vec(),
    );
    let mut app = App::new(dap, VCP::new());
    let clocks = Clocks::new(72_000_000, 0, 0b100, 0);
    app.setup(board, &clocks);
    board.wires().forget();
    app
}

fn dap1(bytes: &[u8]) -> Request {
    let mut packet = [0u8; 64];
    packet[..bytes.len()].copy_from_slice(bytes);
    Request::DAP1Command((packet, bytes.len()))
}

#[test]
fn traced_peripherals_carry_out_each_operation() {
    let mut board = Traced::new(SimBoard::new());
    board.pin_write(Line::Reset, true);
    assert!(board.pin_read(Line::Reset));
    board.spi_tx8(SpiBus::Spi1, 0xA5);
    assert_eq!(board.spi_rx4(SpiBus::Spi1), 0b0010);
    let mut rx = [7u8; 4];
    board.jtag_exchange(SpiBus::Spi2, &[1, 2], &mut rx);
    assert_eq!(rx, [0xFF, 0xFF, 7, 7]);
    board.uart_start(Port::Swo);
    board.wires().receive(Port::Swo, &[4, 5, 6]);
    assert!(board.uart_is_active(Port::Swo));
    assert_eq!(board.uart_dma_index(Port::Swo), 3);
    let mut dst = [0u8; 2];
    board.uart_copy(Port::Swo, 1, &mut dst);
    assert_eq!(dst, [5, 6]);
    assert_eq!(
        board.wires().ops(),
        vec![
            Op::PinWrite(Line::Reset, true),
            Op::PinRead(Line::Reset, true),
            Op::SpiTx8(SpiBus::Spi1, 0xA5),
            Op::SpiRx4(SpiBus::Spi1, 0b0010),
            Op::Exchange(SpiBus::Spi2, 2),
            Op::Shifted(1, 0xFF),
            Op::Shifted(2, 0xFF),
            Op::UartStart(Port::Swo),
            Op::UartActive(Port::Swo, true),
            Op::UartHead(Port::Swo, 3),
            Op::RingCopy(Port::Swo, 1, 2),
            Op::RingByte(5),
            Op::RingByte(6),
        ]
    );
}

#[test]
fn commands_run_on_traced_peripherals() {
    let mut board = Traced::new(SimBoard::new());
    let mut app = probe(&mut board);
    assert_eq!(
        app.process_request(&mut board, dap1(&[0x02, 1])),
        Reply::Dap1(2)
    );
    assert_eq!(app.response(2), &[0x02, 1]);
    // Write 0xCAFE to debug port register 1 and read it back.
    assert_eq!(
        app.process_request(
            &mut board,
            dap1(&[0x05, 0, 2, 0x04, 0xFE, 0xCA, 0, 0, 0x06])
        ),
        Reply::Dap1(7)
    );
    assert_eq!(app.response(7), &[0x05, 2, 1, 0xFE, 0xCA, 0, 0]);
    assert_eq!(board.wires().dp(1), 0xCAFE);
    // Trace output comes back by the command.
    app.process_request(&mut board, dap1(&[0x1A, 1]));
    board.wires().receive(Port::Swo, b"ok");
    assert_eq!(
        app.process_request(&mut board, dap1(&[0x1C, 8, 0])),
        Reply::Dap1(6)
    );
    assert_eq!(app.response(6), &[0x1C, 1, 2, 0, b'o', b'k']);
    let mut dap = app.dap;
    let mut rbuf = [0u8; 512];
    assert_eq!(
        dap.process_command(&mut board, &[0x00, 0x04], &mut rbuf, DAPVersion::V2),
        7
    );
    assert_eq!(&rbuf[..7], &[0x00, 5, b'w', b'i', b'r', b'e', b'd']);
}

#[test]
fn the_board_hands_out_the_peripherals_it_holds() {
    let mut sim = SimBoard::new();
    sim.set_level(Line::GndDetect, true);
    let mut board = Traced::new(sim);
    // What is done behind the reference is done to the board's peripherals.
    assert!(board.wires().level_of(Line::GndDetect));
    board.wires().set_level(Line::GndDetect, false);
    assert!(!board.pin_read(Line::GndDetect));
    board.wires().set_level(Line::Reset, true);
    assert!(board.pin_read(Line::Reset));
    // The counter is that of the peripherals.
    let before = board.now();
    board.delay_ticks(7);
    assert_eq!(board.now(), before.wrapping_sub(7) & 0xff_ffff);
    assert_eq!(
        board.wires().ops(),
        vec![
            Op::PinRead(Line::GndDetect, false),
            Op::PinRead(Line::Reset, true),
            Op::Wait(7),
        ]
    );
}
