use x11rb::connection::{packet_tail_length, RustConnection, WaitStep};
use x11rb::errors::{ConnectError, ConnectionError, ParseError, ReplyError, ReplyOrIdError};
use x11rb::inner::{DiscardMode, RequestKind};
use x11rb::setup::Setup;
use x11rb::x11_utils::{Event, ExtensionInformation};

fn test_setup() -> Setup {
    Setup {
        resource_id_base: 0x0040_0000,
        resource_id_mask: 0x001F_FFFF,
        maximum_request_length: 0x4000,
        roots_len: 1,
    }
}

fn conn() -> RustConnection {
    RustConnection::for_connected_stream(test_setup()).unwrap()
}

fn packet(kind: u8, seq: u16) -> Vec<u8> {
    let mut p = vec![0u8; 32];
    p[0] = kind;
    p[2] = (seq & 0xff) as u8;
    p[3] = (seq >> 8) as u8;
    p
}

fn reply(seq: u16) -> Vec<u8> {
    let mut p = packet(1, seq);
    p[8] = 0xAB;
    p
}

fn error(seq: u16, code: u8) -> Vec<u8> {
    let mut p = packet(0, seq);
    p[1] = code;
    p
}

fn request() -> Vec<Vec<u8>> {
    vec![vec![0x2B, 0, 0x01, 0x00]]
}

#[test]
fn simple_reply() {
    let mut c = conn();
    let seq = c.send_request_with_reply(&request(), &[]).unwrap();
    assert_eq!(seq, 1);
    assert_eq!(c.flush(), vec![0x2B, 0, 0x01, 0x00]);
    assert!(matches!(c.wait_for_reply(1), WaitStep::Read));
    let r = reply(1);
    assert_eq!(c.read_packet_and_enqueue(r.clone()), Ok(()));
    match c.wait_for_reply(1) {
        WaitStep::Done(Some(buf)) => assert_eq!(buf, r),
        _ => panic!("expected the reply"),
    }
}

#[test]
fn two_threads_reply_then_check() {
    let mut c = conn();
    let a = c.send_request_with_reply(&request(), &[]).unwrap();
    let b = c.send_request_without_reply(&request(), &[]).unwrap();
    assert_eq!((a, b), (1, 2));
    assert!(matches!(c.wait_for_reply(a), WaitStep::Read));
    let r = reply(1);
    c.read_packet_and_enqueue(r.clone()).unwrap();
    assert!(matches!(c.wait_for_reply(a), WaitStep::Done(Some(ref buf)) if *buf == r));
    assert!(matches!(c.check_for_error(b), WaitStep::Read));
    c.read_packet_and_enqueue(error(2, 3)).unwrap();
    match c.check_for_error(b) {
        WaitStep::Done(Ok(Some(e))) => assert_eq!(e.error_code(), 3),
        _ => panic!("expected the error"),
    }
}

#[test]
fn big_request_negotiation() {
    let mut c = conn();
    let big = vec![vec![0u8; 65536 + 4]];
    assert_eq!(
        c.send_request_without_reply(&big, &[]),
        Err(ConnectionError::MaximumRequestLengthExceeded)
    );
    let ext = ExtensionInformation { major_opcode: 133, first_event: 0, first_error: 0 };
    c.prefetch_maximum_request_bytes(Some(ext));
    assert_eq!(c.maximum_request_bytes_sequence(), Some(1));
    assert_eq!(c.flush(), vec![133, 0, 1, 0]);
    c.prefetch_maximum_request_bytes(Some(ext));
    assert_eq!(c.maximum_request_bytes_sequence(), Some(1));
    assert!(matches!(c.wait_for_reply(1), WaitStep::Read));
    let mut r = reply(1);
    r[8..12].copy_from_slice(&0x4000_0000u32.to_le_bytes());
    c.read_packet_and_enqueue(r).unwrap();
    let got = match c.wait_for_reply(1) {
        WaitStep::Done(Some(buf)) => buf,
        _ => panic!("expected the reply"),
    };
    let expected = usize::try_from(0x1_0000_0000u64).unwrap_or(usize::MAX);
    assert_eq!(c.maximum_request_bytes(Some(&got)), expected);
    assert_eq!(c.maximum_request_bytes(None), expected);
    assert_eq!(c.send_request_without_reply(&big, &[]), Ok(2));
    let out = c.flush();
    assert_eq!(out.len(), 65536 + 4);
    assert_eq!(&out[..4], &[0, 0, 0x01, 0x40]);
    let huge = vec![vec![7u8, 1, 0, 0], vec![0u8; 262140]];
    assert_eq!(c.send_request_without_reply(&huge, &[]), Ok(3));
    let out = c.flush();
    assert_eq!(out.len(), 262144 + 4);
    assert_eq!(&out[..8], &[7, 1, 0, 0, 0x01, 0x00, 0x01, 0x00]);
}

#[test]
fn setup_length_when_big_requests_absent() {
    let mut c = conn();
    c.prefetch_maximum_request_bytes(None);
    assert_eq!(c.maximum_request_bytes_sequence(), None);
    assert_eq!(c.maximum_request_bytes(None), 65536);
}

#[test]
fn sequence_wrap() {
    let mut c = conn();
    let mut last = 0;
    for _ in 0..65537 {
        last = c.send_request_with_reply(&request(), &[]).unwrap();
    }
    assert_eq!(last, 0x10001);
    assert_eq!(last & 0xffff, 1);
    assert!(matches!(c.wait_for_reply(last), WaitStep::Read));
    c.read_packet_and_enqueue(packet(2, 0xffff)).unwrap();
    assert!(matches!(c.wait_for_reply(last), WaitStep::Read));
    c.read_packet_and_enqueue(packet(2, 0)).unwrap();
    assert!(matches!(c.wait_for_reply(last), WaitStep::Read));
    let r = reply(1);
    c.read_packet_and_enqueue(r.clone()).unwrap();
    assert!(matches!(c.wait_for_reply(last), WaitStep::Done(Some(ref buf)) if *buf == r));
    assert!(matches!(c.wait_for_reply(1), WaitStep::Done(None)));
    match c.poll_for_event_with_sequence() {
        Some((e, s)) => {
            assert_eq!(s, 0xffff);
            assert_eq!(e[0], 2);
        }
        None => panic!("expected an event"),
    }
    assert_eq!(c.poll_for_event_with_sequence().map(|e| e.1), Some(0x10000));
}

#[test]
fn id_exhaustion() {
    let mut c = conn();
    assert_eq!(c.generate_id(), Some(0x0040_0000));
    for _ in 1..0x20_0000u32 {
        assert!(c.generate_id().is_some());
    }
    assert_eq!(c.generate_id(), None);
    let ext = ExtensionInformation { major_opcode: 140, first_event: 0, first_error: 0 };
    let seq = c.request_xid_range(ext).unwrap();
    assert_eq!(c.flush(), vec![140, 1, 1, 0]);
    assert!(matches!(c.wait_for_reply(seq), WaitStep::Read));
    c.read_packet_and_enqueue(reply(seq as u16)).unwrap();
    let mut r = match c.wait_for_reply(seq) {
        WaitStep::Done(Some(buf)) => buf,
        _ => panic!("expected the reply"),
    };
    r[8..16].copy_from_slice(&[0; 8]);
    assert!(matches!(c.update_xid_range(Some(&r)), Err(ReplyOrIdError::IdsExhausted)));
    assert_eq!(c.generate_id(), None);
}

#[test]
fn id_range_refill() {
    let mut c = conn();
    for _ in 0..0x20_0000u32 {
        c.generate_id().unwrap();
    }
    let mut r = reply(1);
    r[8..12].copy_from_slice(&0x0100_0000u32.to_le_bytes());
    r[12..16].copy_from_slice(&2u32.to_le_bytes());
    c.update_xid_range(Some(&r)).unwrap();
    assert_eq!(c.generate_id(), Some(0x0100_0000));
    assert_eq!(c.generate_id(), Some(0x0100_0001));
    assert_eq!(c.generate_id(), None);
    assert!(matches!(c.update_xid_range(None), Err(ReplyOrIdError::IdsExhausted)));
}

#[test]
fn reader_rotation() {
    let mut c = conn();
    for _ in 0..3 {
        c.send_request_with_reply(&request(), &[]).unwrap();
    }
    assert!(matches!(c.wait_for_reply(1), WaitStep::Read));
    assert!(matches!(c.wait_for_reply(2), WaitStep::Wait));
    assert!(matches!(c.wait_for_reply(3), WaitStep::Wait));
    c.read_packet_and_enqueue(reply(1)).unwrap();
    assert!(matches!(c.wait_for_reply(2), WaitStep::Read));
    assert!(matches!(c.wait_for_reply(3), WaitStep::Wait));
    assert!(matches!(c.wait_for_reply(1), WaitStep::Done(Some(ref b)) if *b == reply(1)));
    c.read_packet_and_enqueue(reply(2)).unwrap();
    assert!(matches!(c.wait_for_reply(3), WaitStep::Read));
    assert!(matches!(c.wait_for_reply(2), WaitStep::Done(Some(ref b)) if *b == reply(2)));
    c.read_packet_and_enqueue(reply(3)).unwrap();
    assert!(matches!(c.wait_for_reply(3), WaitStep::Done(Some(ref b)) if *b == reply(3)));
    assert!(matches!(c.wait_for_event_with_sequence(), WaitStep::Read));
    c.read_failed();
    assert!(matches!(c.wait_for_event_with_sequence(), WaitStep::Read));
}

#[test]
fn discard_reply_and_error_drops_answer() {
    let mut c = conn();
    let s = c.send_request_with_reply(&request(), &[]).unwrap();
    c.discard_reply(s, RequestKind::HasResponse, DiscardMode::DiscardReplyAndError);
    c.read_packet_and_enqueue(error(1, 9)).unwrap();
    assert!(matches!(c.wait_for_reply_or_error(s), WaitStep::Done(Err(ReplyError::ConnectionError(ConnectionError::UnknownError)))));
    assert!(c.poll_for_event_with_sequence().is_none());
    let t = c.send_request_with_reply(&request(), &[]).unwrap();
    c.discard_reply(t, RequestKind::HasResponse, DiscardMode::DiscardReplyAndError);
    c.read_packet_and_enqueue(reply(2)).unwrap();
    assert!(matches!(c.wait_for_reply(t), WaitStep::Done(None)));
    assert!(c.poll_for_event_with_sequence().is_none());
}

#[test]
fn discard_reply_keeps_error() {
    let mut c = conn();
    let s = c.send_request_without_reply(&request(), &[]).unwrap();
    c.discard_reply(s, RequestKind::IsVoid, DiscardMode::DiscardReply);
    c.read_packet_and_enqueue(error(1, 4)).unwrap();
    match c.check_for_error(s) {
        WaitStep::Done(Ok(Some(e))) => assert_eq!(e.error_code(), 4),
        _ => panic!("expected the error"),
    }
}

#[test]
fn discard_reply_drops_stored_reply() {
    let mut c = conn();
    let s = c.send_request_with_reply(&request(), &[]).unwrap();
    c.read_packet_and_enqueue(reply(1)).unwrap();
    c.discard_reply(s, RequestKind::HasResponse, DiscardMode::DiscardReply);
    assert!(matches!(c.wait_for_reply(s), WaitStep::Done(None)));
}

#[test]
fn check_for_error_sends_fence() {
    let mut c = conn();
    let s = c.send_request_without_reply(&vec![vec![8, 0, 1, 0]], &[]).unwrap();
    c.flush();
    assert!(matches!(c.check_for_error(s), WaitStep::Read));
    assert_eq!(c.flush(), vec![0x2B, 0, 1, 0]);
    c.read_packet_and_enqueue(reply(2)).unwrap();
    assert!(matches!(c.check_for_error(s), WaitStep::Done(Ok(None))));
    assert!(c.flush().is_empty());
}

#[test]
fn wait_for_reply_or_error_reports_error() {
    let mut c = conn();
    let s = c.send_request_with_reply(&request(), &[]).unwrap();
    c.read_packet_and_enqueue(error(1, 2)).unwrap();
    match c.wait_for_reply_or_error(s) {
        WaitStep::Done(Err(ReplyError::X11Error(e))) => {
            assert_eq!(e.error_code(), 2);
            assert_eq!(e.raw_sequence_number(), Some(1));
        }
        _ => panic!("expected the error"),
    }
    let t = c.send_request_with_reply(&request(), &[]).unwrap();
    c.read_packet_and_enqueue(reply(2)).unwrap();
    assert!(matches!(c.wait_for_reply_or_error(t), WaitStep::Done(Ok(ref b)) if *b == reply(2)));
}

#[test]
fn wait_for_reply_hides_error() {
    let mut c = conn();
    let s = c.send_request_with_reply(&request(), &[]).unwrap();
    c.read_packet_and_enqueue(error(1, 2)).unwrap();
    assert!(matches!(c.wait_for_reply(s), WaitStep::Done(None)));
}

#[test]
fn descriptors_are_refused() {
    let mut c = conn();
    assert_eq!(c.send_request_with_reply(&request(), &[3]), Err(ConnectionError::FdPassingFailed));
    assert_eq!(c.send_request_without_reply(&request(), &[3]), Err(ConnectionError::FdPassingFailed));
    assert_eq!(c.send_request_with_reply_with_fds(&request(), &[]), Err(ConnectionError::FdPassingFailed));
    assert!(c.flush().is_empty());
    assert_eq!(c.send_request_with_reply(&request(), &[]), Ok(1));
}

#[test]
fn packet_beyond_requests_is_refused() {
    let mut c = conn();
    assert_eq!(c.read_packet_and_enqueue(reply(5)), Err(ParseError::ParseError));
    assert_eq!(c.read_packet_and_enqueue(packet(2, 0)), Ok(()));
    assert_eq!(c.poll_for_event_with_sequence().map(|e| e.1), Some(0));
}

#[test]
fn events_in_order_and_keymap_notify() {
    let mut c = conn();
    c.send_request_without_reply(&request(), &[]).unwrap();
    c.send_request_without_reply(&request(), &[]).unwrap();
    c.read_packet_and_enqueue(packet(2, 1)).unwrap();
    c.read_packet_and_enqueue(packet(11, 0x7777)).unwrap();
    c.read_packet_and_enqueue(packet(0x80 | 3, 2)).unwrap();
    let got: Vec<(u8, u64)> = (0..3)
        .map(|_| match c.wait_for_event_with_sequence() {
            WaitStep::Done((e, s)) => (e[0], s),
            _ => panic!("expected an event"),
        })
        .collect();
    assert_eq!(got, vec![(2, 1), (11, 1), (0x83, 2)]);
    assert!(c.poll_for_event_with_sequence().is_none());
}

#[test]
fn connect_handshake() {
    let h = RustConnection::connect_to_stream_with_auth_info(0, b"MIT".to_vec(), vec![1, 2, 3, 4, 5]);
    let expected: Vec<u8> = vec![
        0x6c, 0, 11, 0, 0, 0, 3, 0, 5, 0, 0, 0, b'M', b'I', b'T', 0, 1, 2, 3, 4, 5, 0, 0, 0,
    ];
    assert_eq!(h.request(), &expected[..]);
    let mut r = vec![0u8; 40];
    r[0] = 1;
    r[12..16].copy_from_slice(&0x0040_0000u32.to_le_bytes());
    r[16..20].copy_from_slice(&0x001F_FFFFu32.to_le_bytes());
    r[26..28].copy_from_slice(&0x4000u16.to_le_bytes());
    r[28] = 1;
    let mut c = h.finish(&r).unwrap();
    assert_eq!(*c.setup(), test_setup());
    assert_eq!(c.generate_id(), Some(0x0040_0000));
    let h2 = RustConnection::connect_to_stream(1);
    assert_eq!(h2.request(), &[0x6c, 0, 11, 0, 0, 0, 0, 0, 0, 0, 0, 0][..]);
    assert!(matches!(h2.finish(&r), Err(ConnectError::InvalidScreen)));
}

#[test]
fn connect_errors() {
    let mut r = vec![0u8; 40];
    r[28] = 1;
    assert!(matches!(RustConnection::connect_to_stream(0).finish(&r), Err(ConnectError::SetupFailed)));
    r[0] = 2;
    assert!(matches!(RustConnection::connect_to_stream(0).finish(&r), Err(ConnectError::SetupAuthenticate)));
    r[0] = 1;
    assert!(matches!(RustConnection::connect_to_stream(0).finish(&r), Err(ConnectError::ZeroIdMask)));
    assert!(matches!(RustConnection::connect_to_stream(0).finish(&r[..20]), Err(ConnectError::ParseError)));
    let mut s = test_setup();
    s.resource_id_mask = 0;
    assert!(matches!(RustConnection::for_connected_stream(s), Err(ConnectError::ZeroIdMask)));
}

#[test]
fn tail_lengths() {
    let mut h = packet(1, 0);
    h[4] = 2;
    assert_eq!(packet_tail_length(&h), 8);
    h[0] = 0x23;
    assert_eq!(packet_tail_length(&h), 8);
    h[0] = 0xA3;
    assert_eq!(packet_tail_length(&h), 8);
    h[0] = 2;
    assert_eq!(packet_tail_length(&h), 0);
    h[0] = 0;
    assert_eq!(packet_tail_length(&h), 0);
}
