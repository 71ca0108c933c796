use x11rb::errors::{ConnectionError, ParseError};
use x11rb::request::compute_length_field;
use x11rb::setup::{parse_query_extension_reply, query_extension_request, setup_reply_length};
use x11rb::x11_utils::{
    parse_list, parse_u8_list, Event, ExtensionInformation, GenericError, GenericEvent, Serialize,
    TryParse,
};

fn bytes32(kind: u8) -> Vec<u8> {
    let mut v = vec![0u8; 32];
    v[0] = kind;
    v
}

#[test]
fn generic_event_framing() {
    assert!(matches!(GenericEvent::new(vec![0u8; 31]), Err(ParseError::ParseError)));
    let e = GenericEvent::new(bytes32(2)).unwrap();
    assert_eq!(e.response_type(), 2);
    assert!(e.server_generated());
    assert_eq!(e.into_buffer(), bytes32(2));
    let mut g = bytes32(0x23);
    g[4] = 1;
    assert!(GenericEvent::new(g.clone()).is_err());
    g.extend_from_slice(&[9, 9, 9, 9]);
    let e = GenericEvent::new(g.clone()).unwrap();
    assert_eq!(e.raw_bytes(), &g[..]);
    let mut sent = bytes32(0x80 | 0x23);
    sent[4] = 1;
    sent.extend_from_slice(&[0; 4]);
    let e = GenericEvent::new(sent).unwrap();
    assert!(!e.server_generated());
    assert_eq!(e.raw_response_type(), 0xA3);
    assert!(GenericEvent::new(vec![2u8; 36]).is_err());
}

#[test]
fn sequence_numbers_of_events() {
    let mut k = bytes32(11);
    k[2] = 5;
    assert_eq!(GenericEvent::new(k).unwrap().raw_sequence_number(), None);
    let mut e = bytes32(2);
    e[2] = 0x34;
    e[3] = 0x12;
    assert_eq!(GenericEvent::new(e).unwrap().raw_sequence_number(), Some(0x1234));
}

#[test]
fn generic_error_framing() {
    let mut v = bytes32(0);
    v[1] = 8;
    let e = GenericError::new(v.clone()).unwrap();
    assert_eq!(e.error_code(), 8);
    assert_eq!(e.response_type(), 0);
    assert_eq!(e.into_buffer(), v);
    assert!(matches!(GenericError::new(bytes32(2)), Err(ParseError::ParseError)));
    assert!(matches!(GenericError::new(vec![0u8; 10]), Err(ParseError::ParseError)));
    let ev = GenericEvent::new(bytes32(0)).unwrap();
    assert!(GenericError::try_from(ev).is_ok());
    let ev = GenericEvent::new(bytes32(5)).unwrap();
    assert!(GenericError::try_from(ev).is_err());
    let back: GenericEvent = GenericError::new(v.clone()).unwrap().into();
    assert_eq!(back.raw_bytes(), &v[..]);
}

#[test]
fn extension_information_fields() {
    let a = ExtensionInformation { major_opcode: 130, first_event: 64, first_error: 128 };
    assert_eq!(a, a);
    assert_ne!(a, ExtensionInformation { major_opcode: 131, ..a });
}

#[test]
fn integers_round_trip() {
    let v: u32 = 0xDEAD_BEEF;
    assert_eq!(v.serialize(), vec![0xEF, 0xBE, 0xAD, 0xDE]);
    let (p, rest) = u32::try_parse(&[0xEF, 0xBE, 0xAD, 0xDE, 7]).unwrap();
    assert_eq!(p, v);
    assert_eq!(rest, &[7]);
    let w: i16 = -2;
    assert_eq!(w.serialize(), vec![0xFE, 0xFF]);
    assert_eq!(i16::try_parse(&[0xFE, 0xFF]).unwrap().0, -2);
    for x in [i64::MIN, -1, 0, 1, i64::MAX] {
        assert_eq!(i64::try_parse(&x.serialize()).unwrap().0, x);
    }
    for x in [u64::MAX, 0, 0x0102_0304_0506_0708] {
        assert_eq!(u64::try_parse(&x.serialize()).unwrap().0, x);
    }
    for x in [i8::MIN, -1, 0, i8::MAX] {
        assert_eq!(i8::try_parse(&x.serialize()).unwrap().0, x);
    }
    assert_eq!(i32::try_parse(&(-5i32).serialize()).unwrap().0, -5);
    assert_eq!(u16::try_parse(&0xABCDu16.serialize()).unwrap().0, 0xABCD);
    assert_eq!(u8::try_parse(&[200]).unwrap().0, 200);
    assert!(matches!(u64::try_parse(&[1, 2, 3]), Err(ParseError::ParseError)));
    assert!(u8::try_parse(&[]).is_err());
}

#[test]
fn bool_tuple_list_round_trip() {
    assert_eq!(true.serialize(), vec![1]);
    assert_eq!(bool::try_parse(&[2]).unwrap().0, true);
    assert_eq!(bool::try_parse(&[0]).unwrap().0, false);
    let t: (u8, u16) = (1, 0x0302);
    assert_eq!(t.serialize(), vec![1, 2, 3]);
    assert_eq!(<(u8, u16)>::try_parse(&[1, 2, 3, 4]).unwrap(), ((1, 0x0302), &[4u8][..]));
    let t3: (bool, i8, u32) = (true, -1, 5);
    let b = t3.serialize();
    assert_eq!(b, vec![1, 0xFF, 5, 0, 0, 0]);
    assert_eq!(<(bool, i8, u32)>::try_parse(&b).unwrap().0, t3);
    let list: Vec<u16> = vec![1, 2, 0xFFFF];
    let mut out = vec![9u8];
    list.serialize_into(&mut out);
    assert_eq!(out, vec![9, 1, 0, 2, 0, 0xFF, 0xFF]);
    let (back, rest) = parse_list::<u16>(&out[1..], 3).unwrap();
    assert_eq!(back, list);
    assert!(rest.is_empty());
    assert!(parse_list::<u16>(&out[1..], 4).is_err());
    let (none, rest) = parse_list::<u32>(&[1, 2], 0).unwrap();
    assert!(none.is_empty());
    assert_eq!(rest, &[1, 2]);
}

#[test]
fn u8_list_split() {
    let data = [1u8, 2, 3, 4];
    assert_eq!(parse_u8_list(&data, 3).unwrap(), (&[1u8, 2, 3][..], &[4u8][..]));
    assert_eq!(parse_u8_list(&data, 4).unwrap(), (&data[..], &[][..]));
    assert!(matches!(parse_u8_list(&data, 5), Err(ParseError::ParseError)));
}

#[test]
fn length_field_forms() {
    let small = vec![vec![1u8, 0, 0xAA, 0xBB], vec![5, 6, 7, 8]];
    assert_eq!(compute_length_field(&small, 16).unwrap(), vec![1, 0, 2, 0, 5, 6, 7, 8]);
    assert_eq!(compute_length_field(&small, 4), Err(ConnectionError::MaximumRequestLengthExceeded));
    let big = vec![vec![3u8, 4, 0, 0], vec![0u8; 4 * 0xffff]];
    let out = compute_length_field(&big, 1 << 20).unwrap();
    assert_eq!(out.len(), 4 * 0x10000 + 4);
    assert_eq!(&out[..8], &[3, 4, 0, 0, 0x01, 0x00, 0x01, 0x00]);
    assert_eq!(compute_length_field(&big, 4 * 0x10000), Err(ConnectionError::MaximumRequestLengthExceeded));
}

#[test]
fn extension_query_framing() {
    assert_eq!(
        query_extension_request(b"BIG-REQUESTS"),
        vec![98, 0, 5, 0, 12, 0, 0, 0, b'B', b'I', b'G', b'-', b'R', b'E', b'Q', b'U', b'E', b'S', b'T', b'S']
    );
    assert_eq!(query_extension_request(b"XC-MISC").len(), 16);
    let mut r = bytes32(1);
    r[8] = 1;
    r[9] = 133;
    r[10] = 0;
    r[11] = 0;
    assert_eq!(
        parse_query_extension_reply(&r),
        Some(ExtensionInformation { major_opcode: 133, first_event: 0, first_error: 0 })
    );
    r[8] = 0;
    assert_eq!(parse_query_extension_reply(&r), None);
    assert_eq!(setup_reply_length(&[1, 0, 11, 0, 0, 0, 3, 1]), 8 + 4 * 259);
}
