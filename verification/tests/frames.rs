use pn532::frame::{parse_response, to_checksum};
use pn532::{Command, Error, Request};

type Parsed<'a> = Result<&'a [u8], Error<()>>;

/// The answer to GetFirmwareVersion: IC 0x32, version 1.6, support 7.
const FIRMWARE: [u8; 13] = [
    0x00, 0x00, 0xFF, 0x06, 0xFA, 0xD5, 0x03, 0x32, 0x01, 0x06, 0x07, 0xE8, 0x00,
];

fn parse(buf: &[u8]) -> Parsed<'_> {
    parse_response(buf, 0x03)
}

#[test]
fn checksum_is_twos_complement() {
    assert_eq!(to_checksum(0x00), 0x00);
    assert_eq!(to_checksum(0x01), 0xFF);
    assert_eq!(to_checksum(0x02), 0xFE);
    assert_eq!(to_checksum(0x80), 0x80);
    assert_eq!(to_checksum(0xD6), 0x2A);
    assert_eq!(to_checksum(0xFF), 0x01);
}

#[test]
fn response_yields_its_data() {
    assert_eq!(parse(&FIRMWARE), Ok(&[0x32, 0x01, 0x06, 0x07][..]));
}

#[test]
fn bytes_behind_a_response_do_not_matter() {
    let mut buf = FIRMWARE.to_vec();
    buf.extend_from_slice(&[1, 2, 3]);
    assert_eq!(parse(&buf), Ok(&[0x32, 0x01, 0x06, 0x07][..]));
}

#[test]
fn response_without_data() {
    let buf = [0x00, 0x00, 0xFF, 0x02, 0xFE, 0xD5, 0x15, 0x16, 0x00];
    let parsed: Parsed = parse_response(&buf, 0x15);
    assert_eq!(parsed, Ok(&[][..]));
}

#[test]
fn longest_response() {
    let data: Vec<u8> = (0..253).map(|i| i as u8).collect();
    let mut buf = vec![0x00, 0x00, 0xFF, 0xFF, 0x01, 0xD5, 0x03];
    buf.extend_from_slice(&data);
    let sum = buf[5..].iter().fold(0u8, |s, b| s.wrapping_add(*b));
    buf.push(to_checksum(sum));
    buf.push(0x00);
    assert_eq!(parse(&buf), Ok(&data[..]));
}

#[test]
fn wrong_preamble() {
    for i in 0..3 {
        let mut buf = FIRMWARE;
        buf[i] ^= 0x01;
        assert_eq!(parse(&buf), Err(Error::BadResponseFrame));
    }
    assert_eq!(parse(&[1, 2, 3]), Err(Error::BadResponseFrame));
}

#[test]
fn altered_length_is_noticed() {
    for i in 3..5 {
        for byte in 0..=255u8 {
            let mut buf = FIRMWARE;
            if byte != buf[i] {
                buf[i] = byte;
                assert_eq!(parse(&buf), Err(Error::CrcError));
            }
        }
    }
}

#[test]
fn altered_data_is_noticed() {
    for i in 7..12 {
        for byte in 0..=255u8 {
            let mut buf = FIRMWARE;
            if byte != buf[i] {
                buf[i] = byte;
                assert_eq!(parse(&buf), Err(Error::CrcError));
            }
        }
    }
}

#[test]
fn wrong_postamble_identifier_or_command() {
    for i in [5, 6, 12] {
        let mut buf = FIRMWARE;
        buf[i] ^= 0x04;
        assert_eq!(parse(&buf), Err(Error::BadResponseFrame));
    }
    let parsed: Parsed = parse_response(&FIRMWARE, 0x05);
    assert_eq!(parsed, Err(Error::BadResponseFrame));
}

#[test]
fn postamble_is_checked_before_the_data_checksum() {
    let mut buf = FIRMWARE;
    buf[8] = 0x77;
    buf[12] = 0x01;
    assert_eq!(parse(&buf), Err(Error::BadResponseFrame));
}

#[test]
fn room_is_checked_before_the_identifier() {
    let mut buf = FIRMWARE;
    buf[5] = 0x00;
    assert_eq!(parse(&buf[..12]), Err(Error::BufTooSmall));
}

#[test]
fn cut_off_response() {
    for len in 5..13 {
        assert_eq!(parse(&FIRMWARE[..len]), Err(Error::BufTooSmall));
    }
}

#[test]
fn error_frame_is_syntax() {
    let buf = [0x00, 0x00, 0xFF, 0x01, 0xFF, 0x7F, 0x81, 0x00, 0x00];
    assert_eq!(parse(&buf), Err(Error::Syntax));
    assert_eq!(parse(&buf[..5]), Err(Error::Syntax));
}

#[test]
fn empty_frame() {
    assert_eq!(parse(&[0x00, 0x00, 0xFF, 0x00, 0x00, 0x00]), Err(Error::BadResponseFrame));
}

#[test]
fn ack_is_no_response() {
    assert_eq!(parse(&[0x00, 0x00, 0xFF, 0x00, 0xFF, 0x00, 0, 0, 0]), Err(Error::CrcError));
}

#[test]
fn command_frame_is_no_response() {
    let buf = [0x00, 0x00, 0xFF, 0x02, 0xFE, 0xD4, 0x02, 0x2A, 0x00];
    let parsed: Parsed = parse_response(&buf, 0x02);
    assert_eq!(parsed, Err(Error::BadResponseFrame));
}

#[test]
fn command_codes() {
    assert_eq!(Command::Diagnose.code(), 0x00);
    assert_eq!(Command::GetFirmwareVersion.code(), 0x02);
    assert_eq!(Command::SAMConfiguration.code(), 0x14);
    assert_eq!(Command::InDataExchange.code(), 0x40);
    assert_eq!(Command::InListPassiveTarget.code(), 0x4A);
    assert_eq!(Command::TgSetMetaData.code(), 0x94);
}

#[test]
fn borrowed_request() {
    let request = Request::new(Command::InListPassiveTarget, [1, 0]);
    let borrowed = request.borrow();
    assert_eq!(borrowed.command, Command::InListPassiveTarget);
    assert_eq!(borrowed.data, &[1, 0]);
}

#[test]
fn interface_error_is_wrapped() {
    assert_eq!(Error::from(5u8), Error::InterfaceError(5u8));
}
