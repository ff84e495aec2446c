use hs_probe::dap::{Command, Request, ResponseWriter};
use hs_probe::swd::{Error, ACK};

#[test]
fn request_reads_little_endian_values_in_order() {
    let report = [0x05u8, 0x11, 0x22, 0x33, 0x44, 0x55, 0x66, 0x77, 0x88];
    let mut req = Request::from_report(&report).unwrap();
    assert_eq!(req.command, Command::DAP_Transfer);
    assert_eq!(req.next_u8(), 0x11);
    assert_eq!(req.next_u16(), 0x3322);
    assert_eq!(req.next_u32(), 0x77665544);
    assert_eq!(req.rest(), &[0x88u8][..]);
}

#[test]
fn empty_report_holds_no_request() {
    let report: [u8; 0] = [];
    assert!(Request::from_report(&report).is_none());
}

#[test]
fn unknown_opcode_reads_as_unimplemented() {
    let report = [0x7Fu8, 1, 2];
    let req = Request::from_report(&report).unwrap();
    assert_eq!(req.command, Command::Unimplemented);
    assert_eq!(req.command.code(), 0xFF);
}

#[test]
fn writer_appends_and_backfills() {
    let mut buf = [0xAAu8; 16];
    let mut w = ResponseWriter::new(Command::DAP_SWO_Data, &mut buf);
    w.write_u8(1);
    w.skip(2);
    w.write_u32(0x0403_0201);
    w.write_u16(0xBEEF);
    w.write_slice(&[9, 8, 7]);
    w.write_u16_at(2, 0x1234);
    w.write_ok();
    w.write_err();
    *w.mut_at(1) = 0x55;
    assert_eq!(w.read_u8_at(2), 0x34);
    assert_eq!(w.remaining().len(), 1);
    let n = w.idx;
    assert_eq!(n, 15);
    assert_eq!(
        &buf[..n],
        &[0x1C, 0x55, 0x34, 0x12, 1, 2, 3, 4, 0xEF, 0xBE, 9, 8, 7, 0x00, 0xFF][..]
    );
    assert_eq!(buf[15], 0xAA);
}

#[test]
fn acknowledgements_map_to_errors() {
    assert_eq!(ACK::try_ok(0b001), Ok(()));
    assert_eq!(ACK::try_ok(0b010), Err(Error::AckWait));
    assert_eq!(ACK::try_ok(0b100), Err(Error::AckFault));
    assert_eq!(ACK::try_ok(0b111), Err(Error::AckProtocol));
    assert_eq!(ACK::try_ok(0b011), Err(Error::AckUnknown(0b011)));
    assert_eq!(ACK::try_ok(0), Err(Error::AckUnknown(0)));
}
