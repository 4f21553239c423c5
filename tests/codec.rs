use bytes::BytesMut;
use serial_soak::codec::{CodecError, LineCodec, MAX_FRAME_LEN};

fn buf(bytes: &[u8]) -> BytesMut {
    let mut b = BytesMut::new();
    b.extend_from_slice(bytes);
    b
}

#[test]
fn decode_whole_line_in_one_call() {
    let mut src = buf(b"OK\r\n");
    let r = LineCodec.decode(&mut src);
    assert_eq!(r, Ok(Some("OK\r\n".to_string())));
    assert!(src.is_empty());
}

#[test]
fn decode_waits_for_terminator() {
    let mut src = buf(b"OK");
    assert_eq!(LineCodec.decode(&mut src), Ok(None));
    assert_eq!(&src[..], b"OK");
    src.extend_from_slice(b"\r\n");
    assert_eq!(LineCodec.decode(&mut src), Ok(Some("OK\r\n".to_string())));
    assert!(src.is_empty());
}

#[test]
fn decode_takes_one_line_at_a_time() {
    let mut src = buf(b"first\nsecond\r\nrest");
    assert_eq!(LineCodec.decode(&mut src), Ok(Some("first\n".to_string())));
    assert_eq!(LineCodec.decode(&mut src), Ok(Some("second\r\n".to_string())));
    assert_eq!(LineCodec.decode(&mut src), Ok(None));
    assert_eq!(&src[..], b"rest");
}

#[test]
fn decode_empty_buffer_yields_nothing() {
    let mut src = BytesMut::new();
    assert_eq!(LineCodec.decode(&mut src), Ok(None));
}

#[test]
fn decode_rejects_invalid_utf8_and_consumes_it() {
    let mut src = buf(&[0xff, 0xfe, b'\n', b'A']);
    assert_eq!(LineCodec.decode(&mut src), Err(CodecError::InvalidEncoding));
    assert_eq!(&src[..], b"A");
}

#[test]
fn decode_multibyte_line() {
    let mut src = buf("héllo\n".as_bytes());
    assert_eq!(LineCodec.decode(&mut src), Ok(Some("héllo\n".to_string())));
}

#[test]
fn decode_at_frame_limit_still_waits() {
    let mut src = buf(&vec![b'a'; MAX_FRAME_LEN]);
    assert_eq!(LineCodec.decode(&mut src), Ok(None));
    assert_eq!(src.len(), MAX_FRAME_LEN);
}

#[test]
fn decode_past_frame_limit_is_too_long_and_keeps_bytes() {
    let mut src = buf(&vec![b'a'; MAX_FRAME_LEN + 1]);
    assert_eq!(LineCodec.decode(&mut src), Err(CodecError::FrameTooLong));
    assert_eq!(src.len(), MAX_FRAME_LEN + 1);
    src.extend_from_slice(b"\n");
    let line = LineCodec.decode(&mut src).unwrap().unwrap();
    assert_eq!(line.len(), MAX_FRAME_LEN + 2);
    assert!(src.is_empty());
}

#[test]
fn encode_appends_terminator() {
    let mut dst = BytesMut::new();
    assert_eq!(LineCodec.encode("$QXMON".to_string(), &mut dst), Ok(()));
    assert_eq!(&dst[..], b"$QXMON\r\n");
}

#[test]
fn encode_does_not_double_terminator() {
    let mut dst = buf(b"x");
    assert!(LineCodec.encode("AT\r\n".to_string(), &mut dst).is_ok());
    assert_eq!(&dst[..], b"xAT\r\n");
}

#[test]
fn encode_bare_line_feed_gets_full_terminator() {
    let mut dst = BytesMut::new();
    assert!(LineCodec.encode("AT\n".to_string(), &mut dst).is_ok());
    assert_eq!(&dst[..], b"AT\n\r\n");
}

#[test]
fn encode_then_decode_round_trip() {
    let mut b = BytesMut::new();
    LineCodec.encode("QXMON,BG1101".to_string(), &mut b).unwrap();
    assert_eq!(LineCodec.decode(&mut b), Ok(Some("QXMON,BG1101\r\n".to_string())));
    assert!(b.is_empty());
    LineCodec.encode("OK\r\n".to_string(), &mut b).unwrap();
    assert_eq!(LineCodec.decode(&mut b), Ok(Some("OK\r\n".to_string())));
    assert!(b.is_empty());
}

#[test]
fn partial_frame_then_rest() {
    let mut b = buf(b"QXMON,BG");
    assert_eq!(LineCodec.decode(&mut b), Ok(None));
    b.extend_from_slice(b"1101\r\n");
    assert_eq!(LineCodec.decode(&mut b), Ok(Some("QXMON,BG1101\r\n".to_string())));
    assert!(b.is_empty());
}
