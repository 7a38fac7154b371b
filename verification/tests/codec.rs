use bytes::BytesMut;
use opc::{Command, DecodeError, EncodeError, Message, OpcCodec};

fn frame_of(msg: Message) -> Vec<u8> {
    let mut buf = BytesMut::new();
    assert_eq!(OpcCodec.encode(msg, &mut buf), Ok(()));
    buf.to_vec()
}

#[test]
fn should_roundtrip_pixel_command() {
    let mut codec = OpcCodec;
    let mut buf = BytesMut::new();
    let test_msg = Message {
        channel: 4,
        command: Command::SetPixelColors { pixels: vec![[9; 3]; 10] },
    };

    assert!(codec.encode(test_msg.clone(), &mut buf).is_ok());

    let recv_msg = codec.decode(&mut buf.into()).unwrap().unwrap();

    assert_eq!(test_msg, recv_msg);
}

#[test]
fn server_roundtrip_system_command() {
    let mut codec = OpcCodec;
    let mut buf = BytesMut::new();
    let test_msg = Message {
        channel: 4,
        command: Command::SystemExclusive { id: [0; 2], data: vec![8; 10] },
    };

    assert!(codec.encode(test_msg.clone(), &mut buf).is_ok());

    let recv_msg = codec.decode(&mut buf.into()).unwrap().unwrap();

    assert_eq!(test_msg, recv_msg);
}

#[test]
fn encodes_ten_pixels_as_34_bytes() {
    let bytes = frame_of(Message {
        channel: 4,
        command: Command::SetPixelColors { pixels: vec![[9; 3]; 10] },
    });
    let mut expected = vec![0x04, 0x00, 0x00, 0x1e];
    for _ in 0..10 {
        expected.extend_from_slice(&[0x09, 0x09, 0x09]);
    }
    assert_eq!(bytes.len(), 34);
    assert_eq!(bytes, expected);
}

#[test]
fn encodes_system_exclusive_frame() {
    let bytes = frame_of(Message {
        channel: 4,
        command: Command::SystemExclusive { id: [0; 2], data: vec![8; 10] },
    });
    let mut expected = vec![0x04, 0xff, 0x00, 0x0c, 0x00, 0x00];
    expected.extend_from_slice(&[0x08; 10]);
    assert_eq!(bytes, expected);
}

#[test]
fn encodes_pixels_in_order() {
    let bytes = frame_of(Message::from_pixels(7, &[[1, 2, 3], [4, 5, 6]]));
    assert_eq!(bytes, vec![7, 0x00, 0, 6, 1, 2, 3, 4, 5, 6]);
}

#[test]
fn encodes_length_big_endian() {
    let bytes = frame_of(Message::from_data(1, &[0xaa, 0xbb], &[0x11; 0x0201]));
    assert_eq!(&bytes[..6], &[1, 0xff, 0x02, 0x03, 0xaa, 0xbb]);
    assert_eq!(bytes.len(), 4 + 2 + 0x0201);
    assert!(bytes[6..].iter().all(|b| *b == 0x11));
}

#[test]
fn encode_appends_behind_what_is_there() {
    let mut buf = BytesMut::from(vec![0xee, 0xdd]);
    assert_eq!(OpcCodec.encode(Message::from_pixels(2, &[[1, 2, 3]]), &mut buf), Ok(()));
    assert_eq!(&buf[..], &[0xee, 0xdd, 2, 0, 0, 3, 1, 2, 3]);
    assert_eq!(OpcCodec.encode(Message::from_data(3, &[5, 6], &[]), &mut buf), Ok(()));
    assert_eq!(&buf[..], &[0xee, 0xdd, 2, 0, 0, 3, 1, 2, 3, 3, 0xff, 0, 2, 5, 6]);
}

#[test]
fn encodes_empty_pixel_list() {
    assert_eq!(frame_of(Message::from_pixels(0, &[])), vec![0, 0, 0, 0]);
}

#[test]
fn encode_refuses_oversized_pixels_and_writes_nothing() {
    let mut buf = BytesMut::from(vec![1, 2, 3]);
    let msg = Message::from_pixels(1, &vec![[0u8; 3]; 21846]);
    assert_eq!(OpcCodec.encode(msg, &mut buf), Err(EncodeError::Oversized));
    assert_eq!(&buf[..], &[1, 2, 3]);
}

#[test]
fn encode_refuses_oversized_data_and_writes_nothing() {
    let mut buf = BytesMut::new();
    let msg = Message::from_data(1, &[0, 0], &vec![0u8; 65534]);
    assert_eq!(OpcCodec.encode(msg, &mut buf), Err(EncodeError::Oversized));
    assert!(buf.is_empty());
}

#[test]
fn roundtrips_largest_pixel_message() {
    let pixels: Vec<[u8; 3]> = (0..21845u32).map(|i| [i as u8, (i >> 8) as u8, 7]).collect();
    let msg = Message::from_pixels(9, &pixels);
    let mut buf = BytesMut::new();
    assert_eq!(OpcCodec.encode(msg.clone(), &mut buf), Ok(()));
    assert_eq!(buf.len(), 4 + 65535);
    assert_eq!(&buf[..4], &[9, 0, 0xff, 0xff]);
    assert_eq!(OpcCodec.decode(&mut buf), Ok(Some(msg)));
    assert!(buf.is_empty());
}

#[test]
fn roundtrips_largest_system_message() {
    let data: Vec<u8> = (0..65533u32).map(|i| (i % 251) as u8).collect();
    let msg = Message::from_data(255, &[1, 2], &data);
    let mut buf = BytesMut::new();
    assert_eq!(OpcCodec.encode(msg.clone(), &mut buf), Ok(()));
    assert_eq!(buf.len(), 4 + 65535);
    assert_eq!(OpcCodec.decode(&mut buf), Ok(Some(msg)));
    assert!(buf.is_empty());
}

#[test]
fn roundtrips_empty_system_message() {
    let msg = Message::from_data(0, &[3, 4], &[]);
    let mut buf = BytesMut::new();
    assert_eq!(OpcCodec.encode(msg.clone(), &mut buf), Ok(()));
    assert_eq!(&buf[..], &[0, 0xff, 0, 2, 3, 4]);
    assert_eq!(OpcCodec.decode(&mut buf), Ok(Some(msg)));
}

#[test]
fn decodes_one_pixel_and_discards_trailing_byte() {
    let mut buf = BytesMut::from(vec![0x01, 0x00, 0x00, 0x04, 0x0a, 0x0b, 0x0c, 0xff]);
    let msg = OpcCodec.decode(&mut buf).unwrap().unwrap();
    assert_eq!(msg, Message { channel: 1, command: Command::SetPixelColors { pixels: vec![[10, 11, 12]] } });
    assert!(buf.is_empty());
}

#[test]
fn decode_truncates_two_trailing_bytes() {
    let mut buf = BytesMut::from(vec![3, 0, 0, 8, 1, 2, 3, 4, 5, 6, 7, 8]);
    let msg = OpcCodec.decode(&mut buf).unwrap().unwrap();
    assert_eq!(msg, Message::from_pixels(3, &[[1, 2, 3], [4, 5, 6]]));
    assert!(buf.is_empty());
}

#[test]
fn decode_of_short_pixel_payload_has_no_pixels() {
    let mut buf = BytesMut::from(vec![3, 0, 0, 2, 1, 2]);
    assert_eq!(OpcCodec.decode(&mut buf), Ok(Some(Message::from_pixels(3, &[]))));
    assert!(buf.is_empty());
}

#[test]
fn decode_consumes_exactly_one_frame() {
    let mut buf = BytesMut::from(vec![1, 0, 0, 3, 1, 2, 3, 2, 0xff, 0, 3, 9, 8, 7, 0x55]);
    assert_eq!(OpcCodec.decode(&mut buf), Ok(Some(Message::from_pixels(1, &[[1, 2, 3]]))));
    assert_eq!(&buf[..], &[2, 0xff, 0, 3, 9, 8, 7, 0x55]);
    assert_eq!(OpcCodec.decode(&mut buf), Ok(Some(Message::from_data(2, &[9, 8], &[7]))));
    assert_eq!(&buf[..], &[0x55]);
    assert_eq!(OpcCodec.decode(&mut buf), Ok(None));
    assert_eq!(&buf[..], &[0x55]);
}

#[test]
fn decode_of_empty_buffer_needs_more() {
    let mut buf = BytesMut::new();
    assert_eq!(OpcCodec.decode(&mut buf), Ok(None));
    assert!(buf.is_empty());
}

#[test]
fn decode_of_short_header_consumes_nothing() {
    let mut buf = BytesMut::from(vec![1, 0, 0]);
    assert_eq!(OpcCodec.decode(&mut buf), Ok(None));
    assert_eq!(&buf[..], &[1, 0, 0]);
}

#[test]
fn decode_of_short_payload_consumes_nothing() {
    let mut buf = BytesMut::from(vec![1, 0, 0, 6, 1, 2, 3, 4, 5]);
    assert_eq!(OpcCodec.decode(&mut buf), Ok(None));
    assert_eq!(&buf[..], &[1, 0, 0, 6, 1, 2, 3, 4, 5]);
}

#[test]
fn decode_retried_after_more_bytes_equals_direct_decode() {
    let whole = frame_of(Message::from_data(5, &[1, 2], &[3, 4, 5, 6]));
    let mut direct = BytesMut::from(whole.clone());
    let expected = OpcCodec.decode(&mut direct);
    assert_eq!(expected, Ok(Some(Message::from_data(5, &[1, 2], &[3, 4, 5, 6]))));
    for cut in 0..whole.len() {
        let mut buf = BytesMut::from(whole[..cut].to_vec());
        assert_eq!(OpcCodec.decode(&mut buf), Ok(None));
        assert_eq!(&buf[..], &whole[..cut]);
        buf.extend_from_slice(&whole[cut..]);
        assert_eq!(OpcCodec.decode(&mut buf), expected);
        assert!(buf.is_empty());
    }
}

#[test]
fn decode_rejects_unknown_command_and_keeps_the_bytes() {
    let mut buf = BytesMut::from(vec![1, 0x42, 0, 1, 9]);
    assert_eq!(OpcCodec.decode(&mut buf), Err(DecodeError::UnknownCommand { command: 0x42 }));
    assert_eq!(&buf[..], &[1, 0x42, 0, 1, 9]);
}

#[test]
fn decode_of_unknown_command_waits_for_the_payload() {
    let mut buf = BytesMut::from(vec![1, 0x42, 0, 2, 9]);
    assert_eq!(OpcCodec.decode(&mut buf), Ok(None));
    buf.extend_from_slice(&[9]);
    assert_eq!(OpcCodec.decode(&mut buf), Err(DecodeError::UnknownCommand { command: 0x42 }));
}

#[test]
fn decode_rejects_system_payload_without_id() {
    let mut empty = BytesMut::from(vec![1, 0xff, 0, 0]);
    assert_eq!(OpcCodec.decode(&mut empty), Err(DecodeError::MissingSystemId));
    assert_eq!(&empty[..], &[1, 0xff, 0, 0]);
    let mut one = BytesMut::from(vec![1, 0xff, 0, 1, 7]);
    assert_eq!(OpcCodec.decode(&mut one), Err(DecodeError::MissingSystemId));
    assert_eq!(&one[..], &[1, 0xff, 0, 1, 7]);
}

#[test]
fn decode_reads_length_big_endian() {
    let mut bytes = vec![1, 0, 0x01, 0x02];
    bytes.extend_from_slice(&[7u8; 0x0102]);
    let mut buf = BytesMut::from(bytes);
    let msg = OpcCodec.decode(&mut buf).unwrap().unwrap();
    assert_eq!(msg.len(), 0x0102);
    assert_eq!(msg, Message::from_pixels(1, &vec![[7u8; 3]; 86]));
    assert!(buf.is_empty());
}
