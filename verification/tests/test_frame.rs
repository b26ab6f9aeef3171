use actix_web::payload::{Async, PayloadError, PayloadHelper};
use actix_web::ws::frame::{Frame, ProtocolError};
use actix_web::ws::mask::apply_mask;
use actix_web::ws::proto::{CloseCode, OpCode};

type Parsed = Result<Async<Option<Frame>>, ProtocolError>;

fn is_none(frm: Parsed) -> bool {
    match frm {
        Ok(Async::Ready(None)) => true,
        _ => false,
    }
}

fn extract(frm: Parsed) -> Frame {
    match frm {
        Ok(Async::Ready(Some(frame))) => frame,
        _ => panic!("error"),
    }
}

#[test]
fn test_parse() {
    let mut buf = PayloadHelper::new(vec![0b00000001u8, 0b00000001u8]);
    assert!(is_none(Frame::parse(&mut buf, false, 1024)));

    let mut buf = vec![0b00000001u8, 0b00000001u8];
    buf.extend(b"1");
    let mut buf = PayloadHelper::new(buf);

    let frame = extract(Frame::parse(&mut buf, false, 1024));
    println!("FRAME: {}", frame.to_string());
    assert!(!frame.finished);
    assert_eq!(frame.opcode, OpCode::Text);
    assert_eq!(&frame.payload[..], &b"1"[..]);
}

#[test]
fn test_parse_length0() {
    let buf = vec![0b00000001u8, 0b00000000u8];
    let mut buf = PayloadHelper::new(buf);

    let frame = extract(Frame::parse(&mut buf, false, 1024));
    assert!(!frame.finished);
    assert_eq!(frame.opcode, OpCode::Text);
    assert!(frame.payload.is_empty());
}

#[test]
fn test_parse_length2() {
    let buf = vec![0b00000001u8, 126u8];
    let mut buf = PayloadHelper::new(buf);
    assert!(is_none(Frame::parse(&mut buf, false, 1024)));

    let mut buf = vec![0b00000001u8, 126u8];
    buf.extend(&[0u8, 4u8][..]);
    buf.extend(b"1234");
    let mut buf = PayloadHelper::new(buf);

    let frame = extract(Frame::parse(&mut buf, false, 1024));
    assert!(!frame.finished);
    assert_eq!(frame.opcode, OpCode::Text);
    assert_eq!(&frame.payload[..], &b"1234"[..]);
}

#[test]
fn test_parse_length4() {
    let buf = vec![0b00000001u8, 127u8];
    let mut buf = PayloadHelper::new(buf);
    assert!(is_none(Frame::parse(&mut buf, false, 1024)));

    let mut buf = vec![0b00000001u8, 127u8];
    buf.extend(&[0u8, 0u8, 0u8, 0u8, 0u8, 0u8, 0u8, 4u8][..]);
    buf.extend(b"1234");
    let mut buf = PayloadHelper::new(buf);

    let frame = extract(Frame::parse(&mut buf, false, 1024));
    assert!(!frame.finished);
    assert_eq!(frame.opcode, OpCode::Text);
    assert_eq!(&frame.payload[..], &b"1234"[..]);
}

#[test]
fn test_parse_frame_mask() {
    let mut buf = vec![0b00000001u8, 0b10000001u8];
    buf.extend(b"0001");
    buf.extend(b"1");
    let mut buf = PayloadHelper::new(buf);

    assert!(Frame::parse(&mut buf, false, 1024).is_err());

    let frame = extract(Frame::parse(&mut buf, true, 1024));
    assert!(!frame.finished);
    assert_eq!(frame.opcode, OpCode::Text);
    assert_eq!(frame.payload, vec![1u8]);
}

#[test]
fn test_parse_frame_no_mask() {
    let mut buf = vec![0b00000001u8, 0b00000001u8];
    buf.extend(&[1u8]);
    let mut buf = PayloadHelper::new(buf);

    assert!(Frame::parse(&mut buf, true, 1024).is_err());

    let frame = extract(Frame::parse(&mut buf, false, 1024));
    assert!(!frame.finished);
    assert_eq!(frame.opcode, OpCode::Text);
    assert_eq!(frame.payload, vec![1u8]);
}

#[test]
fn test_parse_frame_max_size() {
    let mut buf = vec![0b00000001u8, 0b00000010u8];
    buf.extend(&[1u8, 1u8]);
    let mut buf = PayloadHelper::new(buf);

    assert!(Frame::parse(&mut buf, true, 1).is_err());

    if let Err(ProtocolError::Overflow) = Frame::parse(&mut buf, false, 0) {
    } else {
        panic!("error");
    }
}

#[test]
fn test_ping_frame() {
    let frame = Frame::message(Vec::from("data"), OpCode::Ping, true, false);

    let mut v = vec![137u8, 4u8];
    v.extend(b"data");
    assert_eq!(&frame[..], &v[..]);
}

#[test]
fn test_pong_frame() {
    let frame = Frame::message(Vec::from("data"), OpCode::Pong, true, false);

    let mut v = vec![138u8, 4u8];
    v.extend(b"data");
    assert_eq!(&frame[..], &v[..]);
}

#[test]
fn test_close_frame() {
    let frame = Frame::close(CloseCode::Normal, "data", false);

    let mut v = vec![136u8, 6u8, 3u8, 232u8];
    v.extend(b"data");
    assert_eq!(&frame[..], &v[..]);
}

#[test]
fn test_overflow_leaves_buffer() {
    let mut buf = PayloadHelper::new(vec![0x01, 0x02, 0x01, 0x01]);
    assert_eq!(Frame::parse(&mut buf, false, 1).err(), Some(ProtocolError::Overflow));
    // nothing was taken off the buffer
    assert_eq!(buf.len(), 4);
}

#[test]
fn test_text_frame() {
    let mut buf = PayloadHelper::new(vec![0x01, 0x01, 0x31]);
    let frame = extract(Frame::parse(&mut buf, false, 1024));
    assert!(!frame.finished);
    assert!(!frame.rsv1 && !frame.rsv2 && !frame.rsv3);
    let (finished, opcode, payload) = frame.unpack();
    assert!(!finished);
    assert_eq!(opcode, OpCode::Text);
    assert_eq!(payload, b"1".to_vec());
    assert_eq!(buf.len(), 0);
}

#[test]
fn test_mask_errors() {
    let mut buf = PayloadHelper::new(vec![0x81, 0x01, 0x31]);
    assert_eq!(Frame::parse(&mut buf, true, 1024).err(), Some(ProtocolError::UnmaskedFrame));
    let mut buf = PayloadHelper::new(vec![0x81, 0x81, 1, 2, 3, 4, 0x31]);
    assert_eq!(Frame::parse(&mut buf, false, 1024).err(), Some(ProtocolError::MaskedFrame));
}

#[test]
fn test_invalid_opcode_and_length() {
    let mut buf = PayloadHelper::new(vec![0x83, 0x00]);
    assert_eq!(Frame::parse(&mut buf, false, 1024).err(), Some(ProtocolError::InvalidOpcode(3)));
    assert_eq!(buf.len(), 0);

    let mut bytes = vec![0x89, 126, 0, 126];
    bytes.extend(vec![0u8; 126]);
    let mut buf = PayloadHelper::new(bytes);
    assert_eq!(Frame::parse(&mut buf, false, 1024).err(), Some(ProtocolError::InvalidLength(126)));

    // a close frame that is too long becomes an empty close frame
    let mut bytes = vec![0x88, 126, 0, 126];
    bytes.extend(vec![7u8; 126]);
    let mut buf = PayloadHelper::new(bytes);
    let frame = extract(Frame::parse(&mut buf, false, 1024));
    assert!(frame.finished);
    assert_eq!(frame.opcode, OpCode::Close);
    assert!(frame.payload.is_empty());
}

#[test]
fn test_stream_states() {
    let mut buf = PayloadHelper::empty();
    assert!(matches!(Frame::parse(&mut buf, false, 16), Ok(Async::NotReady)));
    buf.feed(&[0x82]);
    assert!(matches!(Frame::parse(&mut buf, false, 16), Ok(Async::NotReady)));
    buf.feed(&[0x02, 9]);
    assert!(matches!(Frame::parse(&mut buf, false, 16), Ok(Async::NotReady)));
    buf.feed(&[8, 0x81]);
    let frame = extract(Frame::parse(&mut buf, false, 16));
    assert!(frame.finished);
    assert_eq!(frame.opcode, OpCode::Binary);
    assert_eq!(frame.payload, vec![9, 8]);
    assert_eq!(buf.len(), 1);
    buf.feed_error(PayloadError::Incomplete);
    assert_eq!(
        Frame::parse(&mut buf, false, 16).err(),
        Some(ProtocolError::Payload(PayloadError::Incomplete))
    );
}

fn round_trip(code: OpCode, len: usize, mask: Option<[u8; 4]>) {
    let payload: Vec<u8> = (0..len).map(|i| (i * 7 + 3) as u8).collect();
    let bytes = Frame::encode(payload.clone(), code, true, mask);
    let mut buf = PayloadHelper::new(bytes.to_vec());
    let frame = extract(Frame::parse(&mut buf, mask.is_some(), 70_000));
    assert!(frame.finished);
    assert_eq!(frame.opcode, code);
    assert_eq!(frame.payload, payload);
    assert_eq!(buf.len(), 0);
}

#[test]
fn test_round_trip_lengths() {
    for &len in &[0usize, 1, 125, 126, 65_535, 65_536] {
        for &code in &[OpCode::Text, OpCode::Binary] {
            round_trip(code, len, None);
            round_trip(code, len, Some([0x11, 0xa2, 0x33, 0xf4]));
        }
    }
    for &len in &[0usize, 1, 125] {
        for &code in &[OpCode::Ping, OpCode::Pong, OpCode::Close, OpCode::Continue] {
            round_trip(code, len, None);
            round_trip(code, len, Some([1, 2, 3, 4]));
        }
    }
}

#[test]
fn test_length_forms() {
    let bytes = Frame::encode(vec![0u8; 126], OpCode::Binary, false, None);
    assert_eq!(&bytes[..4], &[0x02, 126, 0, 126]);
    assert_eq!(bytes.len(), 4 + 126);
    let bytes = Frame::encode(vec![0u8; 65_536], OpCode::Binary, true, None);
    assert_eq!(&bytes[..10], &[0x82, 127, 0, 0, 0, 0, 0, 1, 0, 0]);
    let bytes = Frame::encode(vec![0xff, 0x00], OpCode::Text, true, Some([0x0f, 0xf0, 0, 0]));
    assert_eq!(&bytes[..], &[0x81, 0x82, 0x0f, 0xf0, 0, 0, 0xf0, 0xf0]);
}

#[test]
fn test_random_mask_round_trip() {
    let bytes = Frame::message(b"hello".to_vec(), OpCode::Text, true, true);
    assert_eq!(bytes.len(), 2 + 4 + 5);
    assert_eq!(bytes[1], 0x85);
    let mut buf = PayloadHelper::new(bytes.to_vec());
    let frame = extract(Frame::parse(&mut buf, true, 1024));
    assert_eq!(frame.payload, b"hello".to_vec());
}

#[test]
fn test_mask_law() {
    let key = [0xde, 0xad, 0xbe, 0xef];
    let payload: Vec<u8> = (0..=255u8).collect();
    let mut buf = payload.clone();
    apply_mask(&mut buf, &key);
    assert_ne!(buf, payload);
    assert_eq!(buf[0], 0xde);
    assert_eq!(buf[5], 5 ^ 0xad);
    apply_mask(&mut buf, &key);
    assert_eq!(buf, payload);
}

#[test]
fn test_close_codes() {
    let frame = Frame::close(CloseCode::Empty, "ignored", false);
    assert_eq!(&frame[..], &[0x88, 0x00]);
    assert_eq!(u16::from(CloseCode::Normal), 1000);
    assert_eq!(u16::from(CloseCode::Tls), 1015);
    assert_eq!(u16::from(CloseCode::Other(4000)), 4000);
    assert_eq!(CloseCode::from(1001), CloseCode::Away);
    assert_eq!(CloseCode::from(0), CloseCode::Empty);
    assert_eq!(CloseCode::from(3000), CloseCode::Other(3000));
    assert_eq!(Frame::close_payload(CloseCode::Away, "bye"), vec![3, 233, b'b', b'y', b'e']);
}

#[test]
fn test_opcodes() {
    for (byte, code) in [
        (0u8, OpCode::Continue),
        (1, OpCode::Text),
        (2, OpCode::Binary),
        (8, OpCode::Close),
        (9, OpCode::Ping),
        (10, OpCode::Pong),
    ] {
        assert_eq!(OpCode::from(byte), code);
        assert_eq!(u8::from(code), byte);
    }
    assert_eq!(OpCode::from(3), OpCode::Bad);
    assert_eq!(OpCode::from(15), OpCode::Bad);
}

#[test]
fn test_frame_as_text() {
    let frame = Frame {
        finished: true,
        rsv1: false,
        rsv2: true,
        rsv3: false,
        opcode: OpCode::Ping,
        payload: vec![0x00, 0x0a, 0x10, 0xff],
    };
    assert_eq!(
        frame.to_string(),
        "\n<FRAME>\n    final: true\n    reserved: false true false\n    opcode: PING\n    \
         payload length: 4\n    payload: 0x0a10ff\n</FRAME>"
    );
    assert_eq!(OpCode::Bad.name(), "BAD");
    assert_eq!(OpCode::Continue.name(), "CONTINUE");
}
