use byteorder::ByteOrder;
use telemetry_dash::frame::{decode_block, encode_block, DecodeError, FRAME_LEN, PAYLOAD_LEN};
use telemetry_dash::telemetry::{decode_frame, encode_frame, packet_payload, TelemetryPacket};

fn sample_packet() -> TelemetryPacket {
    TelemetryPacket {
        idle_counter: 64_000_000,
        x_bits: 1.5f32.to_bits(),
        y_bits: (-2.5f32).to_bits(),
    }
}

#[test]
fn round_trip_all_nonzero() {
    let payload: Vec<u8> = vec![1, 2, 3, 4, 5, 6, 7, 8, 9, 10, 11, 12];
    let block = encode_block(&payload);
    assert_eq!(block.len(), FRAME_LEN);
    assert_eq!(block[0], 13);
    assert_eq!(decode_block(&block), Ok(payload));
}

#[test]
fn round_trip_with_sentinel_bytes() {
    let payload: Vec<u8> = vec![0, 0x90, 0xD0, 0x03, 0, 0, 0xC0, 0x3F, 0, 0, 0x20, 0xC0];
    let block = encode_block(&payload);
    assert_eq!(block.len(), FRAME_LEN);
    assert!(block.iter().all(|&b| b != 0));
    assert_eq!(decode_block(&block), Ok(payload));
}

#[test]
fn round_trip_all_zero_payload() {
    let payload: Vec<u8> = vec![0; PAYLOAD_LEN];
    let block = encode_block(&payload);
    assert_eq!(block.len(), FRAME_LEN);
    assert!(block.iter().all(|&b| b != 0));
    assert_eq!(decode_block(&block), Ok(payload));
}

#[test]
fn round_trip_empty_and_short_payloads() {
    for payload in [vec![], vec![0u8], vec![7u8], vec![7, 0, 7]] {
        let block = encode_block(&payload);
        assert_eq!(block.len(), payload.len() + 1);
        assert_eq!(decode_block(&block), Ok(payload));
    }
}

#[test]
fn misplaced_sentinel_as_code_byte_rejected() {
    let mut block = encode_block(&vec![1, 2, 3, 4, 5, 6, 7, 8, 9, 10, 11, 12]);
    block[0] = 0;
    assert_eq!(decode_block(&block), Err(DecodeError::MisplacedSentinel));
}

#[test]
fn sentinel_inside_run_rejected() {
    // Code byte 13 promises twelve non-sentinel bytes, but one of them is 0.
    let mut block = vec![13u8, 1, 2, 3, 4, 5, 6, 7, 8, 9, 10, 11, 12];
    block[5] = 0;
    assert_eq!(decode_block(&block), Err(DecodeError::MisplacedSentinel));
}

#[test]
fn overlong_code_rejected() {
    // Code byte 14 points one byte past the end of the 13-byte block.
    let block = vec![14u8, 1, 2, 3, 4, 5, 6, 7, 8, 9, 10, 11, 12];
    assert_eq!(decode_block(&block), Err(DecodeError::LengthMismatch));
}

#[test]
fn sentinel_where_run_length_expected_rejected() {
    // The first run ends after four bytes; the next code byte slot holds
    // the sentinel instead of a length.
    let block = vec![5u8, 1, 2, 3, 4, 0, 6, 7, 8, 9, 10, 11, 12];
    let r = decode_block(&block);
    assert_eq!(r, Err(DecodeError::MisplacedSentinel));
}

#[test]
fn decode_frame_never_returns_partial_packet() {
    let block = vec![5u8, 1, 2, 3, 4, 0, 6, 7, 8, 9, 10, 11, 12];
    assert!(matches!(decode_frame(&block), Err(DecodeError::MisplacedSentinel)));
}

#[test]
fn packet_fields_travel_little_endian() {
    let packet = sample_packet();
    let payload = packet_payload(&packet);
    assert_eq!(
        payload,
        vec![0x00, 0x90, 0xD0, 0x03, 0x00, 0x00, 0xC0, 0x3F, 0x00, 0x00, 0x20, 0xC0]
    );
}

#[test]
fn packet_round_trip_through_wire_block() {
    let packet = sample_packet();
    let block = encode_frame(&packet);
    assert_eq!(block.len(), FRAME_LEN);
    let back = decode_frame(&block).unwrap();
    assert_eq!(back, packet);
    assert_eq!(f32::from_bits(back.x_bits), 1.5f32);
    assert_eq!(f32::from_bits(back.y_bits), -2.5f32);
}

#[test]
fn encode_agrees_with_cobs_crate() {
    let payloads: Vec<Vec<u8>> = vec![
        vec![1, 2, 3, 4, 5, 6, 7, 8, 9, 10, 11, 12],
        vec![0, 0x90, 0xD0, 0x03, 0, 0, 0xC0, 0x3F, 0, 0, 0x20, 0xC0],
        vec![0; 12],
        vec![255; 12],
        vec![1, 0, 2, 0, 3, 0, 4, 0, 5, 0, 6, 0],
    ];
    for payload in payloads {
        let ours = encode_block(&payload);
        let mut theirs = vec![0u8; payload.len() + 1];
        let n = cobs::encode(&payload, &mut theirs);
        assert_eq!(n, theirs.len());
        assert_eq!(ours, theirs);

        let report = cobs::decode(&ours, &mut [0u8; 16]).unwrap();
        assert_eq!(report.frame_size(), payload.len());
        assert_eq!(decode_block(&ours), Ok(payload));
    }
}

#[test]
fn field_parse_agrees_with_byteorder_crate() {
    let packet = sample_packet();
    let payload = packet_payload(&packet);
    assert_eq!(byteorder::LE::read_u32(&payload[0..4]), packet.idle_counter);
    assert_eq!(byteorder::LE::read_f32(&payload[4..8]), 1.5f32);
    assert_eq!(byteorder::LE::read_f32(&payload[8..12]), -2.5f32);
}
