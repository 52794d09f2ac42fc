use pn532::exchange::{buffer_takes_exchange, buffer_takes_payload};
use pn532::{Command, Error, Interface, Pn532, Progress, Request, Stage, Waiting};
use std::collections::VecDeque;
use std::task::Poll;

const ACK: [u8; 6] = [0x00, 0x00, 0xFF, 0x00, 0xFF, 0x00];

const FIRMWARE: [u8; 13] = [
    0x00, 0x00, 0xFF, 0x06, 0xFA, 0xD5, 0x03, 0x32, 0x01, 0x06, 0x07, 0xE8, 0x00,
];

const GET_FIRMWARE_VERSION: [u8; 8] = [0x00, 0x00, 0xFF, 0x02, 0xFE, 0xD4, 0x02, 0x2A];

#[derive(Clone, Debug, PartialEq)]
struct Broken(u8);

/// What was asked of the chip.
#[derive(Clone, Debug, PartialEq)]
enum Asked {
    Write(Vec<u8>),
    WaitReady,
    Read(Vec<u8>),
}

/// A chip that plays a script.
#[derive(Clone, Debug, Default)]
struct Chip {
    asked: Vec<Asked>,
    write_fails: Option<u8>,
    ready: VecDeque<Poll<Result<(), u8>>>,
    reads: VecDeque<Result<Vec<u8>, u8>>,
}

impl Interface for Chip {
    type Error = Broken;

    fn write(&mut self, frame: &[u8]) -> Result<(), Broken> {
        self.asked.push(Asked::Write(frame.to_vec()));
        match self.write_fails {
            Some(code) => Err(Broken(code)),
            None => Ok(()),
        }
    }

    fn wait_ready(&mut self) -> Poll<Result<(), Broken>> {
        self.asked.push(Asked::WaitReady);
        match self.ready.pop_front() {
            None | Some(Poll::Ready(Ok(()))) => Poll::Ready(Ok(())),
            Some(Poll::Ready(Err(code))) => Poll::Ready(Err(Broken(code))),
            Some(Poll::Pending) => Poll::Pending,
        }
    }

    fn read(&mut self, buf: &mut [u8]) -> Result<(), Broken> {
        self.asked.push(Asked::Read(buf.to_vec()));
        match self.reads.pop_front() {
            None => Ok(()),
            Some(Err(code)) => Err(Broken(code)),
            Some(Ok(bytes)) => {
                for (to, from) in buf.iter_mut().zip(bytes) {
                    *to = from;
                }
                Ok(())
            }
        }
    }
}

fn chip(reads: &[&[u8]]) -> Chip {
    Chip {
        reads: reads.iter().map(|bytes| Ok(bytes.to_vec())).collect(),
        ..Chip::default()
    }
}

fn driver(chip: Chip) -> Pn532<Chip, u32, 32> {
    Pn532::new(chip, 5)
}

fn firmware_version() -> Request<0> {
    Request::new(Command::GetFirmwareVersion, [])
}

#[test]
fn new_keeps_interface_and_timer() {
    let pn532 = driver(chip(&[]));
    assert_eq!(pn532.timer, 5);
    assert_eq!(pn532.interface.asked, vec![]);
    assert_eq!(pn532.response(25), &[0u8; 25][..]);
}

#[test]
fn send_without_data() {
    let mut pn532 = driver(chip(&[]));
    assert_eq!(pn532.send(&firmware_version(), &[]), Ok(()));
    assert_eq!(pn532.interface.asked, vec![Asked::Write(GET_FIRMWARE_VERSION.to_vec())]);
}

#[test]
fn send_with_data_and_body() {
    let mut pn532 = driver(chip(&[]));
    let request = Request::new(Command::InDataExchange, [0x01]);
    assert_eq!(pn532.send(&request, &[0x30, 0x04]), Ok(()));
    let frame = vec![0x00, 0x00, 0xFF, 0x05, 0xFB, 0xD4, 0x40, 0x01, 0x30, 0x04, 0xB7];
    assert_eq!(pn532.interface.asked, vec![Asked::Write(frame)]);
    // the postamble follows in the buffer
    assert_eq!(pn532.response(5), &[0x01, 0x30, 0x04, 0xB7, 0x00][..]);
}

#[test]
fn sent_frame_adds_up() {
    let mut pn532 = driver(chip(&[]));
    let request = Request::new(Command::WriteRegister, [0xFF; 12]);
    assert_eq!(pn532.send(&request, &[0xA5; 11]), Ok(()));
    match &pn532.interface.asked[0] {
        Asked::Write(frame) => {
            assert_eq!(frame.len(), 31);
            assert_eq!(frame[3].wrapping_add(frame[4]), 0);
            assert_eq!(frame[5..].iter().fold(0u8, |s, b| s.wrapping_add(*b)), 0);
        }
        _ => panic!("nothing was written"),
    }
}

fn written(data: [u8; 2], body: &[u8], command: Command) -> Vec<Asked> {
    let mut pn532 = driver(chip(&[]));
    assert_eq!(pn532.send(&Request::new(command, data), body), Ok(()));
    pn532.interface.asked
}

#[test]
fn frame_determines_command_and_payload() {
    let base = written([1, 2], &[3], Command::InDataExchange);
    assert_eq!(base, written([1, 2], &[3], Command::InDataExchange));
    assert_ne!(base, written([1, 2], &[3], Command::InCommunicateThru));
    assert_ne!(base, written([2, 1], &[3], Command::InDataExchange));
    assert_ne!(base, written([1, 2], &[], Command::InDataExchange));
    assert_ne!(base, written([1, 2], &[3, 0], Command::InDataExchange));
}

#[test]
fn split_between_data_and_body_does_not_matter() {
    let mut left = driver(chip(&[]));
    let mut right = left.clone();
    let wide = Request::new(Command::InDataExchange, [1, 2, 3]);
    let narrow = Request::new(Command::InDataExchange, [1]);
    assert_eq!(left.send(&wide, &[4, 5]), right.send(&narrow, &[2, 3, 4, 5]));
    assert_eq!(left.interface.asked, right.interface.asked);
    assert_eq!(left.response(25), right.response(25));
}

#[test]
fn poll_ready_tells_what_the_chip_says() {
    let mut pn532 = driver(Chip {
        ready: VecDeque::from([Poll::Pending, Poll::Ready(Ok(())), Poll::Ready(Err(8))]),
        ..chip(&[])
    });
    assert_eq!(pn532.poll_ready(), Ok(false));
    assert_eq!(pn532.poll_ready(), Ok(true));
    assert_eq!(pn532.poll_ready(), Err(Error::InterfaceError(Broken(8))));
    assert_eq!(pn532.interface.asked, vec![Asked::WaitReady; 3]);
}

#[test]
fn send_longest_payload() {
    let mut pn532: Pn532<Chip, (), 36> = Pn532::new(chip(&[]), ());
    let request = Request::new(Command::InDataExchange, [0x11; 20]);
    assert_eq!(pn532.send(&request, &[0x22; 7]), Ok(()));
    match &pn532.interface.asked[0] {
        Asked::Write(frame) => assert_eq!(frame.len(), 35),
        _ => panic!("nothing was written"),
    }
}

#[test]
fn send_too_long_payload() {
    let mut pn532: Pn532<Chip, (), 34> = Pn532::new(chip(&[]), ());
    let request = Request::new(Command::InDataExchange, [0x11; 20]);
    assert_eq!(pn532.send(&request, &[0x22; 8]), Err(Error::CrcError));
    assert_eq!(pn532.interface.asked, vec![]);
    assert_eq!(pn532.response(27)[..20], [0x11; 20]);
    assert_eq!(pn532.response(27)[20..], [0x22; 7]);
}

#[test]
fn send_much_too_long_data() {
    let mut pn532: Pn532<Chip, (), 64> = Pn532::new(chip(&[]), ());
    let request = Request::new(Command::InDataExchange, [0x11; 255]);
    assert_eq!(pn532.send(&request, &[]), Err(Error::CrcError));
    assert_eq!(pn532.interface.asked, vec![]);
    // nothing behind the part that was laid out
    assert_eq!(pn532.response(57)[..27], [0x11; 27]);
    assert_eq!(pn532.response(57)[27..], [0x00; 30]);
}

#[test]
fn send_fails_with_the_interface() {
    let mut pn532 = driver(Chip { write_fails: Some(9), ..chip(&[]) });
    assert_eq!(pn532.send(&firmware_version(), &[]), Err(Error::InterfaceError(Broken(9))));
}

#[test]
fn receive_ack_accepts_an_ack() {
    let mut pn532 = driver(chip(&[&ACK]));
    assert_eq!(pn532.receive_ack(), Ok(()));
    assert_eq!(pn532.interface.asked, vec![Asked::Read(vec![0; 6])]);
}

#[test]
fn receive_ack_refuses_anything_else() {
    for i in 0..6 {
        let mut frame = ACK;
        frame[i] ^= 0x10;
        let mut pn532 = driver(chip(&[&frame]));
        assert_eq!(pn532.receive_ack(), Err(Error::BadAck));
    }
    let mut pn532 = driver(Chip { reads: VecDeque::from([Err(4)]), ..chip(&[]) });
    assert_eq!(pn532.receive_ack(), Err(Error::InterfaceError(Broken(4))));
}

#[test]
fn receive_response_gives_the_data() {
    let mut pn532 = driver(chip(&[&FIRMWARE]));
    let data = pn532.receive_response(Command::GetFirmwareVersion, 4);
    assert_eq!(data, Ok(&[0x32, 0x01, 0x06, 0x07][..]));
    assert_eq!(pn532.interface.asked, vec![Asked::Read(vec![0; 13])]);
}

#[test]
fn receive_response_with_room_to_spare() {
    let mut pn532 = driver(chip(&[&FIRMWARE]));
    let data = pn532.receive_response(Command::GetFirmwareVersion, 23);
    assert_eq!(data, Ok(&[0x32, 0x01, 0x06, 0x07][..]));
}

#[test]
fn receive_response_with_too_little_room() {
    for response_len in 0..4 {
        let mut pn532 = driver(chip(&[&FIRMWARE]));
        let data = pn532.receive_response(Command::GetFirmwareVersion, response_len);
        assert_eq!(data, Err(Error::BufTooSmall));
    }
}

#[test]
fn receive_response_zeroes_the_buffer_first() {
    let mut pn532 = driver(chip(&[&FIRMWARE]));
    assert!(pn532.receive_response(Command::GetFirmwareVersion, 4).is_ok());
    assert!(pn532.receive_response(Command::GetFirmwareVersion, 4).is_err());
    assert_eq!(pn532.interface.asked[1], Asked::Read(vec![0; 13]));
}

#[test]
fn receive_response_to_another_command() {
    let mut pn532 = driver(chip(&[&FIRMWARE]));
    let data = pn532.receive_response(Command::GetGeneralStatus, 4);
    assert_eq!(data, Err(Error::BadResponseFrame));
}

#[test]
fn receive_response_fails_with_the_interface() {
    let mut pn532 = driver(Chip { reads: VecDeque::from([Err(4)]), ..chip(&[]) });
    let data = pn532.receive_response(Command::GetFirmwareVersion, 4);
    assert_eq!(data, Err(Error::InterfaceError(Broken(4))));
}

#[test]
fn receive_big_response_is_not_parsed() {
    let mut pn532 = driver(chip(&[&[1, 2, 3]]));
    let mut mine = [9u8; 5];
    assert_eq!(pn532.receive_big_response(&mut mine), Ok(()));
    assert_eq!(mine, [1, 2, 3, 9, 9]);
    assert_eq!(pn532.interface.asked, vec![Asked::Read(vec![9; 5])]);
    let mut pn532 = driver(Chip { reads: VecDeque::from([Err(4)]), ..chip(&[]) });
    assert_eq!(pn532.receive_big_response(&mut mine), Err(Error::InterfaceError(Broken(4))));
}

#[test]
fn abort_sends_an_ack() {
    let mut pn532 = driver(chip(&[]));
    assert_eq!(pn532.abort(), Ok(()));
    assert_eq!(pn532.interface.asked, vec![Asked::Write(ACK.to_vec())]);
    pn532.interface.write_fails = Some(2);
    assert_eq!(pn532.abort(), Err(Error::InterfaceError(Broken(2))));
}

#[test]
fn process_in_one_go() {
    let mut pn532 = driver(chip(&[&ACK, &FIRMWARE]));
    let progress = pn532.process(&firmware_version(), 4, Stage::Start);
    assert_eq!(progress, Ok(Progress::Done(4)));
    assert_eq!(pn532.response(4), &[0x32, 0x01, 0x06, 0x07][..]);
    assert_eq!(
        pn532.interface.asked,
        vec![
            Asked::Write(GET_FIRMWARE_VERSION.to_vec()),
            Asked::WaitReady,
            Asked::Read(vec![0; 6]),
            Asked::WaitReady,
            Asked::Read(vec![0; 13]),
        ]
    );
}

#[test]
fn process_waits_for_ack_and_response() {
    let mut pn532 = driver(Chip {
        ready: VecDeque::from([
            Poll::Pending,
            Poll::Pending,
            Poll::Ready(Ok(())),
            Poll::Pending,
            Poll::Ready(Ok(())),
        ]),
        ..chip(&[&ACK, &FIRMWARE])
    });
    let request = firmware_version();
    let mut stage = Stage::Start;
    let mut waits = vec![];
    let len = loop {
        match pn532.process(&request, 4, stage) {
            Ok(Progress::Pending(waiting)) => {
                waits.push(waiting);
                stage = waiting.resume(false);
            }
            Ok(Progress::Done(len)) => break len,
            Err(e) => panic!("{:?}", e),
        }
    };
    assert_eq!(waits, vec![Waiting::Ack, Waiting::Ack, Waiting::Response]);
    assert_eq!(pn532.response(len), &[0x32, 0x01, 0x06, 0x07][..]);
    let settled: Vec<Asked> =
        pn532.interface.asked.iter().filter(|a| **a != Asked::WaitReady).cloned().collect();
    assert_eq!(
        settled,
        vec![
            Asked::Write(GET_FIRMWARE_VERSION.to_vec()),
            Asked::Read(vec![0; 6]),
            Asked::Read(vec![0; 13]),
        ]
    );
}

#[test]
fn busy_checks_only_delay() {
    let request = firmware_version();
    for busy in 0..4 {
        let mut ready: VecDeque<Poll<Result<(), u8>>> = VecDeque::new();
        for _ in 0..busy {
            ready.push_back(Poll::Pending);
        }
        ready.push_back(Poll::Ready(Ok(())));
        for _ in 0..busy {
            ready.push_back(Poll::Pending);
        }
        ready.push_back(Poll::Ready(Ok(())));
        let mut pn532 = driver(Chip { ready, ..chip(&[&ACK, &FIRMWARE]) });
        let mut stage = Stage::Start;
        let mut steps = 0;
        let last = loop {
            steps += 1;
            match pn532.process(&request, 4, stage) {
                Ok(Progress::Pending(waiting)) => stage = waiting.resume(false),
                last => break last,
            }
        };
        assert_eq!(steps, 2 * busy + 1);
        assert_eq!(last, Ok(Progress::Done(4)));
        assert_eq!(pn532.interface.asked[0], Asked::Write(GET_FIRMWARE_VERSION.to_vec()));
        assert_eq!(pn532.interface.asked.len(), 5 + 2 * busy);
    }
}

#[test]
fn process_runs_out_of_time_before_the_ack() {
    let mut pn532 = driver(Chip { ready: VecDeque::from([Poll::Pending]), ..chip(&[]) });
    let request = firmware_version();
    assert_eq!(
        pn532.process(&request, 4, Stage::Start),
        Ok(Progress::Pending(Waiting::Ack))
    );
    let asked = pn532.interface.asked.clone();
    assert_eq!(
        pn532.process(&request, 4, Waiting::Ack.resume(true)),
        Err(Error::TimeoutAck)
    );
    assert_eq!(pn532.interface.asked, asked);
}

#[test]
fn process_runs_out_of_time_before_the_response() {
    let mut pn532 = driver(Chip {
        ready: VecDeque::from([Poll::Ready(Ok(())), Poll::Pending]),
        ..chip(&[&ACK])
    });
    let request = firmware_version();
    assert_eq!(
        pn532.process(&request, 4, Stage::Start),
        Ok(Progress::Pending(Waiting::Response))
    );
    let asked = pn532.interface.asked.clone();
    assert_eq!(
        pn532.process(&request, 4, Waiting::Response.resume(true)),
        Err(Error::TimeoutResponse)
    );
    assert_eq!(pn532.interface.asked, asked);
}

#[test]
fn process_reports_failures() {
    let request = firmware_version();
    let mut pn532 = driver(Chip { write_fails: Some(1), ..chip(&[]) });
    assert_eq!(
        pn532.process(&request, 4, Stage::Start),
        Err(Error::InterfaceError(Broken(1)))
    );
    let mut pn532 = driver(Chip { ready: VecDeque::from([Poll::Ready(Err(2))]), ..chip(&[]) });
    assert_eq!(
        pn532.process(&request, 4, Stage::Start),
        Err(Error::InterfaceError(Broken(2)))
    );
    let mut pn532 = driver(Chip {
        ready: VecDeque::from([Poll::Ready(Ok(())), Poll::Ready(Err(3))]),
        ..chip(&[&ACK])
    });
    assert_eq!(
        pn532.process(&request, 4, Stage::Start),
        Err(Error::InterfaceError(Broken(3)))
    );
    let mut pn532 = driver(chip(&[&FIRMWARE]));
    assert_eq!(pn532.process(&request, 4, Stage::Start), Err(Error::BadAck));
    let mut pn532 = driver(chip(&[&ACK, &FIRMWARE]));
    assert_eq!(pn532.process(&request, 3, Stage::Start), Err(Error::BufTooSmall));
    let mut pn532 = driver(chip(&[&ACK, &[0, 0, 0xFF, 1, 0xFF, 0x7F, 0x81, 0]]));
    assert_eq!(pn532.process(&request, 4, Stage::Start), Err(Error::Syntax));
}

#[test]
fn same_answers_same_step() {
    let mut first = driver(chip(&[&ACK, &FIRMWARE]));
    let mut second = first.clone();
    let request = firmware_version();
    assert_eq!(
        first.process(&request, 4, Stage::Start),
        second.process(&request, 4, Stage::Start)
    );
    assert_eq!(first.interface.asked, second.interface.asked);
}

#[test]
fn in_data_exchange_sends_the_data_too() {
    let response = [
        0x00, 0x00, 0xFF, 0x05, 0xFB, 0xD5, 0x41, 0x00, 0xCA, 0xFE, 0x22, 0x00,
    ];
    let mut pn532 = driver(chip(&[&ACK, &response]));
    let request = Request::new(Command::InDataExchange, [0x01]);
    let progress = pn532.in_data_exchange(&request, 3, &[0x30, 0x04], Stage::Start);
    assert_eq!(progress, Ok(Progress::Done(3)));
    assert_eq!(pn532.response(3), &[0x00, 0xCA, 0xFE][..]);
    let frame = vec![0x00, 0x00, 0xFF, 0x05, 0xFB, 0xD4, 0x40, 0x01, 0x30, 0x04, 0xB7];
    assert_eq!(pn532.interface.asked[0], Asked::Write(frame));
    assert_eq!(
        pn532.in_data_exchange(&request, 3, &[0x30], Stage::Response { expired: true }),
        Err(Error::TimeoutResponse)
    );
}

#[test]
fn in_data_exchange_with_too_much_data() {
    let mut pn532: Pn532<Chip, (), 40> = Pn532::new(chip(&[]), ());
    let request = Request::new(Command::InDataExchange, [0x01]);
    assert_eq!(
        pn532.in_data_exchange(&request, 3, &[0; 27], Stage::Start),
        Err(Error::CrcError)
    );
    assert_eq!(pn532.interface.asked, vec![]);
}

#[test]
fn process_no_response_stops_at_the_ack() {
    let mut pn532 = driver(Chip { ready: VecDeque::from([Poll::Pending]), ..chip(&[&ACK]) });
    let request = Request::new(Command::InListPassiveTarget, [1, 0]);
    assert_eq!(
        pn532.process_no_response(&request, Stage::Start),
        Ok(Progress::Pending(Waiting::Ack))
    );
    assert_eq!(
        pn532.process_no_response(&request, Waiting::Ack.resume(false)),
        Ok(Progress::Done(()))
    );
    assert_eq!(
        pn532.interface.asked,
        vec![
            Asked::Write(vec![0x00, 0x00, 0xFF, 0x04, 0xFC, 0xD4, 0x4A, 0x01, 0x00, 0xE1]),
            Asked::WaitReady,
            Asked::WaitReady,
            Asked::Read(vec![0; 6]),
        ]
    );
    assert_eq!(
        pn532.process_no_response(&request, Waiting::Ack.resume(true)),
        Err(Error::TimeoutAck)
    );
}

#[test]
fn process_async_without_a_timer() {
    let mut pn532: Pn532<Chip, (), 32> = Pn532::new_async(Chip {
        ready: VecDeque::from([Poll::Pending, Poll::Ready(Ok(())), Poll::Pending]),
        ..chip(&[&ACK, &FIRMWARE])
    });
    let request = firmware_version();
    assert_eq!(
        pn532.process_async(&request, 4, None),
        Ok(Progress::Pending(Waiting::Ack))
    );
    assert_eq!(
        pn532.process_async(&request, 4, Some(Waiting::Ack)),
        Ok(Progress::Pending(Waiting::Response))
    );
    assert_eq!(
        pn532.process_async(&request, 4, Some(Waiting::Response)),
        Ok(Progress::Done(4))
    );
    assert_eq!(pn532.response(4), &[0x32, 0x01, 0x06, 0x07][..]);
}

#[test]
fn process_no_response_async_without_a_timer() {
    let mut pn532: Pn532<Chip, (), 32> = Pn532::new_async(Chip {
        ready: VecDeque::from([Poll::Pending]),
        ..chip(&[&ACK])
    });
    let request = Request::new(Command::InListPassiveTarget, [1, 0]);
    assert_eq!(
        pn532.process_no_response_async(&request, None),
        Ok(Progress::Pending(Waiting::Ack))
    );
    assert_eq!(
        pn532.process_no_response_async(&request, Some(Waiting::Ack)),
        Ok(Progress::Done(()))
    );
}

#[test]
fn buffer_sizes() {
    assert!(buffer_takes_payload(32, 23, 0));
    assert!(!buffer_takes_payload(32, 20, 4));
    assert!(buffer_takes_payload(36, 27, 0));
    assert!(!buffer_takes_payload(35, 27, 0));
    assert!(buffer_takes_payload(34, 28, 0));
    assert!(!buffer_takes_payload(33, usize::MAX, usize::MAX));
    assert!(buffer_takes_exchange(32, Stage::Start, 23, 0, 23));
    assert!(!buffer_takes_exchange(32, Stage::Start, 23, 0, 24));
    assert!(!buffer_takes_exchange(32, Stage::Start, 23, 1, 23));
    assert!(buffer_takes_exchange(34, Stage::Start, 20, 8, 1000));
    assert!(buffer_takes_exchange(32, Stage::Ack { expired: false }, 1000, 0, 23));
    assert!(!buffer_takes_exchange(32, Stage::Response { expired: false }, 0, 0, 24));
    assert!(buffer_takes_exchange(0, Stage::Ack { expired: true }, 0, 0, 24));
}
