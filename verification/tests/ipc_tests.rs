use base64::Engine;
use wry_bindgen::ipc::{
    decode_data, DecodeError, DecodedData, DecodedVariant, EncodedData, IPCMessage, MessageType,
};

fn sample_encoder() -> EncodedData {
    let mut e = EncodedData::new();
    e.push_u8(7);
    e.push_u16(0x1234);
    e.push_u32(0xdead_beef);
    e.push_u64(0x0102_0304_0506_0708);
    e.push_u128(0x1122_3344_5566_7788_99aa_bbcc_ddee_ff00);
    e.push_str("héllo");
    e
}

#[test]
fn encoded_data_round_trips_through_bytes() {
    let e = sample_encoder();
    let bytes = e.to_bytes();
    assert_eq!(bytes.len(), e.byte_len());
    let mut d = DecodedData::from_bytes(&bytes).unwrap();
    assert_eq!(d.take_u8(), Ok(7));
    assert_eq!(d.take_u16(), Ok(0x1234));
    assert_eq!(d.take_u32(), Ok(0xdead_beef));
    assert_eq!(d.take_u64(), Ok(0x0102_0304_0506_0708));
    assert_eq!(d.take_u128(), Ok(0x1122_3344_5566_7788_99aa_bbcc_ddee_ff00));
    assert_eq!(d.take_str(), Ok("héllo"));
    assert!(d.is_empty());
}

#[test]
fn serialized_layout_is_header_then_buffers() {
    let mut e = EncodedData::new();
    e.push_u32(1);
    e.push_u16(2);
    e.push_u8(3);
    e.push_str("ab");
    let bytes = e.to_bytes();
    // u16 buffer at 12 + 4 (one u32 value of the data plus the string length)
    assert_eq!(&bytes[0..4], &20u32.to_le_bytes());
    assert_eq!(&bytes[4..8], &22u32.to_le_bytes());
    assert_eq!(&bytes[8..12], &23u32.to_le_bytes());
    assert_eq!(&bytes[12..16], &1u32.to_le_bytes());
    assert_eq!(&bytes[16..20], &2u32.to_le_bytes());
    assert_eq!(&bytes[20..22], &2u16.to_le_bytes());
    assert_eq!(bytes[22], 3);
    assert_eq!(&bytes[23..], b"ab");
    assert_eq!(e.byte_len(), 25);
}

#[test]
fn empty_buffers_report_their_error() {
    let e = EncodedData::new();
    let bytes = e.to_bytes();
    let mut d = DecodedData::from_bytes(&bytes).unwrap();
    assert!(d.is_empty());
    assert_eq!(d.take_u8(), Err(DecodeError::U8BufferEmpty));
    assert_eq!(d.take_u16(), Err(DecodeError::U16BufferEmpty));
    assert_eq!(d.take_u32(), Err(DecodeError::U32BufferEmpty));
    assert_eq!(d.take_u64(), Err(DecodeError::U32BufferEmpty));
    assert_eq!(d.take_str(), Err(DecodeError::U32BufferEmpty));
}

#[test]
fn short_message_is_rejected() {
    let r = DecodedData::from_bytes(&[0u8; 5]);
    assert_eq!(r.err(), Some(DecodeError::MessageTooShort { expected: 12, actual: 5 }));
}

#[test]
fn bad_offsets_are_rejected() {
    let mut bytes = Vec::new();
    bytes.extend_from_slice(&14u32.to_le_bytes());
    bytes.extend_from_slice(&12u32.to_le_bytes());
    bytes.extend_from_slice(&12u32.to_le_bytes());
    bytes.extend_from_slice(&[0, 0]);
    let r = DecodedData::from_bytes(&bytes);
    assert_eq!(
        r.err(),
        Some(DecodeError::InvalidHeaderOffsets {
            u16_offset: 14,
            u8_offset: 12,
            str_offset: 12,
            total_len: 14,
        })
    );
}

#[test]
fn string_longer_than_buffer_is_rejected() {
    let mut e = EncodedData::new();
    e.push_u32(10);
    let bytes = e.to_bytes();
    let mut d = DecodedData::from_bytes(&bytes).unwrap();
    assert_eq!(
        d.take_str(),
        Err(DecodeError::StringBufferTooShort { expected: 10, actual: 0 })
    );
}

#[test]
fn invalid_utf8_reports_position() {
    let mut bytes = Vec::new();
    bytes.extend_from_slice(&16u32.to_le_bytes());
    bytes.extend_from_slice(&16u32.to_le_bytes());
    bytes.extend_from_slice(&16u32.to_le_bytes());
    bytes.extend_from_slice(&3u32.to_le_bytes());
    bytes.extend_from_slice(&[b'a', 0xff, b'b']);
    let mut d = DecodedData::from_bytes(&bytes).unwrap();
    assert_eq!(d.take_str(), Err(DecodeError::InvalidUtf8 { position: 1 }));
}

#[test]
fn message_types_are_read_from_the_first_byte() {
    let mut e = EncodedData::new();
    e.push_u8(0);
    e.push_u32(5);
    let m = IPCMessage::new(e.to_bytes());
    assert_eq!(m.ty(), Ok(MessageType::Evaluate));
    match m.decoded().unwrap() {
        DecodedVariant::Evaluate { mut data } => assert_eq!(data.take_u32(), Ok(5)),
        DecodedVariant::Respond { .. } => panic!("expected an evaluate message"),
    }

    let mut bad = EncodedData::new();
    bad.push_u8(9);
    let m = IPCMessage::new(bad.to_bytes());
    assert_eq!(m.ty(), Err(DecodeError::InvalidMessageType { value: 9 }));
}

#[test]
fn respond_message_carries_its_payload() {
    let mut payload = EncodedData::new();
    payload.push_u32(42);
    payload.push_str("ok");
    let m = IPCMessage::new_respond(&payload);
    assert_eq!(m.ty(), Ok(MessageType::Respond));
    match m.decoded().unwrap() {
        DecodedVariant::Respond { mut data } => {
            assert_eq!(data.take_u32(), Ok(42));
            assert_eq!(data.take_str(), Ok("ok"));
            assert!(data.is_empty());
        }
        DecodedVariant::Evaluate { .. } => panic!("expected a respond message"),
    }
    let raw = m.data().to_vec();
    assert_eq!(m.into_data(), raw);
}

#[test]
fn extend_appends_each_buffer() {
    let mut a = EncodedData::new();
    a.push_u8(1);
    a.push_u32(2);
    let mut b = EncodedData::new();
    b.push_u8(3);
    b.push_u32(4);
    a.extend(&b);
    let bytes = a.to_bytes();
    let mut d = DecodedData::from_bytes(&bytes).unwrap();
    assert_eq!(d.take_u8(), Ok(1));
    assert_eq!(d.take_u8(), Ok(3));
    assert_eq!(d.take_u32(), Ok(2));
    assert_eq!(d.take_u32(), Ok(4));
}

#[test]
fn decode_data_reads_base64() {
    let m = decode_data(b"AQID").unwrap();
    assert_eq!(m.data(), &[1u8, 2, 3]);
    assert!(decode_data(b"not base64!").is_none());
}

#[test]
fn decode_errors_describe_themselves() {
    assert_eq!(
        DecodeError::MessageTooShort { expected: 12, actual: 3 }.to_string(),
        "message too short: expected at least 12 bytes, got 3"
    );
    assert_eq!(DecodeError::U8BufferEmpty.to_string(), "u8 buffer empty when trying to read");
    assert_eq!(DecodeError::U16BufferEmpty.to_string(), "u16 buffer empty when trying to read");
    assert_eq!(DecodeError::U32BufferEmpty.to_string(), "u32 buffer empty when trying to read");
    assert_eq!(
        DecodeError::StringBufferTooShort { expected: 10, actual: 0 }.to_string(),
        "string buffer too short: expected 10 bytes, got 0"
    );
    assert_eq!(
        DecodeError::InvalidUtf8 { position: 1 }.to_string(),
        "invalid UTF-8 at position 1"
    );
    assert_eq!(
        DecodeError::InvalidMessageType { value: 255 }.to_string(),
        "invalid message type: 255"
    );
    assert_eq!(
        DecodeError::InvalidHeaderOffsets {
            u16_offset: 14,
            u8_offset: 12,
            str_offset: 12,
            total_len: 1400,
        }
        .to_string(),
        "invalid header offsets: u16=14, u8=12, str=12, total_len=1400"
    );
    assert_eq!(DecodeError::Custom("boom".to_string()).to_string(), "boom");
}

#[test]
fn message_type_bytes() {
    assert_eq!(MessageType::Evaluate.as_u8(), 0);
    assert_eq!(MessageType::Respond.as_u8(), 1);
}

#[test]
fn u16_values_read_back_in_push_order() {
    let mut e = EncodedData::new();
    e.push_u16(1);
    e.push_u8(9);
    e.push_u16(2);
    e.push_str("x");
    e.push_u16(3);
    let bytes = e.to_bytes();
    assert_eq!(bytes.len(), 12 + 4 + 2 * 3 + 1 + 1);
    assert_eq!(e.byte_len(), bytes.len());
    let mut d = DecodedData::from_bytes(&bytes).unwrap();
    assert_eq!(d.take_u16(), Ok(1));
    assert_eq!(d.take_u16(), Ok(2));
    assert_eq!(d.take_u16(), Ok(3));
    assert_eq!(d.take_u16(), Err(DecodeError::U16BufferEmpty));
}

#[test]
fn a_pushed_string_reads_back_and_empties_the_message() {
    for s in ["", "plain", "ünï©ødé ✓"] {
        let mut e = EncodedData::new();
        e.push_str(s);
        let bytes = e.to_bytes();
        let mut d = DecodedData::from_bytes(&bytes).unwrap();
        assert_eq!(d.take_str(), Ok(s));
        assert!(d.is_empty());
    }
}

#[test]
fn decoding_gives_back_the_encoded_bytes() {
    let samples: Vec<Vec<u8>> = vec![vec![], vec![0], vec![255, 1], vec![1, 2, 3], (0..=255u8).collect()];
    for bytes in samples {
        let text = base64::engine::general_purpose::STANDARD.encode(&bytes);
        let m = decode_data(text.as_bytes()).unwrap();
        assert_eq!(m.data(), &bytes[..]);
    }
    assert!(decode_data(b"AQI").is_none());
    assert!(decode_data(b"AQJ=").is_none());
}
