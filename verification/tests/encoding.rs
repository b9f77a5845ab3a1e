use bytes::BytesMut;
use tokio_netstring::decimal::{parse_decimal, push_decimal};
use tokio_netstring::{Builder, Decoder, EncodeError, FramedWrite, SendOutcome};

fn drain<T>(writer: &mut FramedWrite<T>, step: usize) -> Vec<u8> {
    let mut out = Vec::new();
    while writer.has_pending() {
        let taken = {
            let chunk = writer.next_chunk().unwrap();
            assert!(!chunk.is_empty());
            let n = step.min(chunk.len());
            out.extend_from_slice(&chunk[..n]);
            n
        };
        let done = writer.advance(taken);
        assert_eq!(done, !writer.has_pending());
    }
    assert!(writer.next_chunk().is_none());
    out
}

fn encode(payload: &[u8]) -> Vec<u8> {
    let mut writer = FramedWrite::new(());
    match writer.start_send(BytesMut::from(payload)) {
        Ok(SendOutcome::Ready) => {}
        other => panic!("payload refused: {:?}", other),
    }
    drain(&mut writer, usize::MAX)
}

#[test]
fn payload_is_framed_as_netstring() {
    assert_eq!(encode(b"hello world"), b"11:hello world,".to_vec());
    assert_eq!(encode(b""), b"0:,".to_vec());
    assert_eq!(encode(b"0123456789"), b"10:0123456789,".to_vec());
}

#[test]
fn chunks_are_head_payload_terminator() {
    let mut writer = FramedWrite::new(());
    writer.set_frame(BytesMut::from(&b"abc"[..])).unwrap();
    assert_eq!(writer.next_chunk().unwrap(), b"3:");
    assert!(!writer.advance(2));
    assert_eq!(writer.next_chunk().unwrap(), b"abc");
    assert!(!writer.advance(3));
    assert_eq!(writer.next_chunk().unwrap(), b",");
    assert!(writer.advance(1));
    assert!(!writer.has_pending());
    assert!(writer.next_chunk().is_none());
}

#[test]
fn writing_resumes_where_it_stopped() {
    let mut writer = FramedWrite::new(());
    writer.set_frame(BytesMut::from(&b"hello world"[..])).unwrap();
    assert_eq!(writer.next_chunk().unwrap(), b"11:");
    assert!(!writer.advance(1));
    assert_eq!(writer.next_chunk().unwrap(), b"1:");
    assert!(!writer.advance(0));
    assert_eq!(writer.next_chunk().unwrap(), b"1:");
    assert!(!writer.advance(2));
    assert_eq!(writer.next_chunk().unwrap(), b"hello world");
    assert!(!writer.advance(6));
    assert_eq!(writer.next_chunk().unwrap(), b"world");
    assert!(!writer.advance(5));
    assert_eq!(writer.next_chunk().unwrap(), b",");
    assert!(!writer.advance(0));
    assert!(writer.advance(1));
}

#[test]
fn byte_by_byte_writing_gives_the_same_wire_bytes() {
    let mut writer = FramedWrite::new(());
    writer.set_frame(BytesMut::from(&b"hello world"[..])).unwrap();
    assert_eq!(drain(&mut writer, 1), b"11:hello world,".to_vec());
}

#[test]
fn oversized_payload_is_refused_and_writer_stays_free() {
    let mut builder = Builder::new();
    builder.max_frame_length(4);
    let mut writer = builder.new_write(());
    match writer.start_send(BytesMut::from(&b"12345"[..])) {
        Err(EncodeError::FrameTooLarge) => {}
        other => panic!("expected a refusal, got {:?}", other),
    }
    assert!(!writer.has_pending());
    assert!(writer.next_chunk().is_none());
    match writer.start_send(BytesMut::from(&b"1234"[..])) {
        Ok(SendOutcome::Ready) => {}
        other => panic!("expected the payload to be taken, got {:?}", other),
    }
    assert_eq!(drain(&mut writer, usize::MAX), b"4:1234,".to_vec());
}

#[test]
fn set_frame_refuses_oversized_payload() {
    let mut builder = Builder::new();
    builder.max_frame_length(0);
    let mut writer = builder.new_write(());
    assert_eq!(writer.set_frame(BytesMut::from(&b"a"[..])), Err(EncodeError::FrameTooLarge));
    assert!(!writer.has_pending());
    assert_eq!(writer.set_frame(BytesMut::new()), Ok(()));
    assert_eq!(drain(&mut writer, usize::MAX), b"0:,".to_vec());
}

#[test]
fn second_submission_waits_for_the_first() {
    let mut writer = FramedWrite::new(());
    assert!(matches!(writer.start_send(BytesMut::from(&b"one"[..])), Ok(SendOutcome::Ready)));
    match writer.start_send(BytesMut::from(&b"second"[..])) {
        Ok(SendOutcome::NotReady(back)) => assert_eq!(&back[..], b"second"),
        other => panic!("expected the payload back, got {:?}", other),
    }
    assert_eq!(writer.next_chunk().unwrap(), b"3:");
    assert_eq!(drain(&mut writer, 2), b"3:one,".to_vec());
    assert!(matches!(writer.start_send(BytesMut::from(&b"second"[..])), Ok(SendOutcome::Ready)));
    assert_eq!(drain(&mut writer, usize::MAX), b"6:second,".to_vec());
}

#[test]
fn busy_writer_hands_back_even_an_oversized_payload() {
    let mut builder = Builder::new();
    builder.max_frame_length(3);
    let mut writer = builder.new_write(());
    assert!(matches!(writer.start_send(BytesMut::from(&b"one"[..])), Ok(SendOutcome::Ready)));
    assert!(matches!(
        writer.start_send(BytesMut::from(&b"too long"[..])),
        Ok(SendOutcome::NotReady(_))
    ));
}

#[test]
fn offset_and_strip_do_not_change_encoding() {
    let mut builder = Builder::new();
    builder.length_field_offset(4).strip_frame(false);
    let mut writer = builder.new_write(());
    writer.set_frame(BytesMut::from(&b"ab"[..])).unwrap();
    assert_eq!(drain(&mut writer, usize::MAX), b"2:ab,".to_vec());
}

#[test]
fn transport_accessors() {
    let mut writer = FramedWrite::new(vec![1u8, 2]);
    assert_eq!(writer.get_ref(), &vec![1u8, 2]);
    writer.get_mut().push(3);
    assert_eq!(writer.get_ref(), &vec![1u8, 2, 3]);
    writer.set_frame(BytesMut::from(&b"x"[..])).unwrap();
    writer.get_mut().clear();
    assert!(writer.has_pending());
    assert_eq!(writer.next_chunk().unwrap(), b"1:");
    assert_eq!(writer.into_inner(), Vec::<u8>::new());
    let configured = Builder::new().new_write(7u32);
    assert_eq!(*configured.get_ref(), 7);
    assert!(!configured.has_pending());
}

#[test]
fn round_trip_through_writer_and_decoder() {
    let payloads: [&[u8]; 5] = [b"", b"a", b"hello world", b"12:34,56", &[0u8, 255, 58, 44, 10]];
    for payload in payloads {
        let mut src = BytesMut::from(encode(payload));
        let mut decoder = Decoder::new();
        let frame = decoder.decode(&mut src).unwrap().unwrap();
        assert_eq!(&frame[..], payload);
        assert!(src.is_empty());
    }
}

#[test]
fn round_trip_at_the_limit() {
    let payload = vec![b':'; 300];
    let mut builder = Builder::new();
    builder.max_frame_length(300);
    let mut writer = builder.new_write(());
    writer.set_frame(BytesMut::from(&payload[..])).unwrap();
    let wire = drain(&mut writer, 7);
    assert_eq!(wire.len(), 305);
    let mut src = BytesMut::from(wire);
    let frame = builder.new_read().decode(&mut src).unwrap().unwrap();
    assert_eq!(&frame[..], &payload[..]);
}

#[test]
fn every_two_way_split_decodes_like_the_whole() {
    let wire = encode(b"Hello world");
    for cut in 0..wire.len() {
        let mut decoder = Decoder::new();
        let mut src = BytesMut::new();
        src.extend_from_slice(&wire[..cut]);
        assert!(decoder.decode(&mut src).unwrap().is_none());
        src.extend_from_slice(&wire[cut..]);
        let frame = decoder.decode(&mut src).unwrap().unwrap();
        assert_eq!(&frame[..], b"Hello world");
        assert!(src.is_empty());
    }
}

#[test]
fn byte_by_byte_arrival_decodes_like_the_whole() {
    let wire = encode(b"Hello world");
    let mut decoder = Decoder::new();
    let mut src = BytesMut::new();
    for (i, byte) in wire.iter().enumerate() {
        src.extend_from_slice(&[*byte]);
        let got = decoder.decode(&mut src).unwrap();
        if i + 1 < wire.len() {
            assert!(got.is_none());
        } else {
            assert_eq!(&got.unwrap()[..], b"Hello world");
        }
    }
    assert!(src.is_empty());
}

#[test]
fn unstripped_split_inside_the_head_decodes_like_the_whole() {
    let mut builder = Builder::new();
    builder.strip_frame(false);
    let mut decoder = builder.new_read();
    let mut src = BytesMut::from(&b"11"[..]);
    assert!(decoder.decode(&mut src).unwrap().is_none());
    src.extend_from_slice(b":Hello wo");
    assert!(decoder.decode(&mut src).unwrap().is_none());
    src.extend_from_slice(b"rld,");
    let frame = decoder.decode(&mut src).unwrap().unwrap();
    assert_eq!(&frame[..], b"11:Hello world,");
}

#[test]
fn unstripped_splits_decode_like_the_whole() {
    let wire = encode(b"Hello world");
    let mut builder = Builder::new();
    builder.strip_frame(false);
    for cut in 0..wire.len() {
        let mut decoder = builder.new_read();
        let mut src = BytesMut::new();
        src.extend_from_slice(&wire[..cut]);
        assert!(decoder.decode(&mut src).unwrap().is_none());
        src.extend_from_slice(&wire[cut..]);
        let frame = decoder.decode(&mut src).unwrap().unwrap();
        assert_eq!(&frame[..], &wire[..]);
        assert!(src.is_empty());
    }
    let mut decoder = builder.new_read();
    let mut src = BytesMut::new();
    for (i, byte) in wire.iter().enumerate() {
        src.extend_from_slice(&[*byte]);
        let got = decoder.decode(&mut src).unwrap();
        if i + 1 < wire.len() {
            assert!(got.is_none());
        } else {
            assert_eq!(&got.unwrap()[..], &wire[..]);
        }
    }
}

#[test]
fn decimal_digits_of_numbers() {
    let cases: [(usize, &[u8]); 6] =
        [(0, b"0"), (7, b"7"), (10, b"10"), (99, b"99"), (100, b"100"), (33554432, b"33554432")];
    for (n, digits) in cases {
        let mut out = Vec::new();
        push_decimal(n, &mut out);
        assert_eq!(&out[..], digits);
    }
    let mut out = vec![b'x'];
    push_decimal(405, &mut out);
    assert_eq!(&out[..], b"x405");
}

#[test]
fn decimal_fields_are_read() {
    assert_eq!(parse_decimal(b"0"), Some(0));
    assert_eq!(parse_decimal(b"11"), Some(11));
    assert_eq!(parse_decimal(b"007"), Some(7));
    assert_eq!(parse_decimal(b"18446744073709551615"), Some(u64::MAX));
    assert_eq!(parse_decimal(b"18446744073709551616"), None);
    assert_eq!(parse_decimal(b"99999999999999999999999"), None);
    assert_eq!(parse_decimal(b""), None);
    assert_eq!(parse_decimal(b"1a"), None);
    assert_eq!(parse_decimal(b" 1"), None);
    assert_eq!(parse_decimal(b"+1"), None);
    assert_eq!(parse_decimal(b"/"), None);
    assert_eq!(parse_decimal(b":"), None);
}

#[test]
fn digits_read_back_as_the_number() {
    for n in [0usize, 1, 9, 10, 11, 255, 1000, 65535, 4294967295] {
        let mut out = Vec::new();
        push_decimal(n, &mut out);
        assert_eq!(parse_decimal(&out), Some(n as u64));
    }
}

#[test]
fn write_parts_hands_out_transport_and_chunk() {
    let mut writer = FramedWrite::new(Vec::<u8>::new());
    {
        let (io, chunk) = writer.write_parts();
        assert!(chunk.is_none());
        io.push(b'!');
    }
    writer.set_frame(BytesMut::from(&b"hello"[..])).unwrap();
    loop {
        let n = {
            let (io, chunk) = writer.write_parts();
            let chunk = chunk.unwrap();
            io.extend_from_slice(chunk);
            chunk.len()
        };
        if writer.advance(n) {
            break;
        }
    }
    assert!(writer.write_parts().1.is_none());
    assert_eq!(writer.into_inner(), b"!5:hello,".to_vec());
}
