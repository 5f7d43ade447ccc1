//! Codec behavior: round-trip, permissive tail, truncation, wire format.

use obi::OBIEncode;
use oracle_bridge::codec::{DecodeError, MyPacket, Req, Res};

fn sample_packet() -> MyPacket {
    MyPacket {
        req: Req {
            client_id: b"front_end".to_vec(),
            oracle_script_id: 1,
            calldata: vec![0, 0, 0, 3, 66, 84, 67, 0, 0, 0, 0, 59, 154, 202, 0],
            ans_count: 4,
            min_count: 2,
        },
        res: Res {
            client_id: b"front_end".to_vec(),
            request_id: 13565,
            ans_count: 4,
            request_time: 1592549507,
            resolve_time: 1592549511,
            resolve_status: 1,
            result: vec![0, 0, 0, 0, 0, 0, 0, 0],
        },
    }
}

#[test]
fn round_trip_sample_packet() {
    let packet = sample_packet();
    let bytes = packet.encode();
    let decoded = MyPacket::decode(bytes.as_slice()).unwrap();
    assert_eq!(decoded, packet);
}

#[test]
fn round_trip_non_utf8_client_id() {
    // client_id bytes are carried raw: the codec does not validate UTF-8.
    let mut packet = sample_packet();
    packet.req.client_id = vec![0xff, 0xfe, 0x00, 0x80];
    let bytes = packet.encode();
    let decoded = MyPacket::decode(bytes.as_slice()).unwrap();
    assert_eq!(decoded, packet);
}

#[test]
fn round_trip_empty_fields() {
    let packet = MyPacket {
        req: Req {
            client_id: Vec::new(),
            oracle_script_id: 0,
            calldata: Vec::new(),
            ans_count: 0,
            min_count: 0,
        },
        res: Res {
            client_id: Vec::new(),
            request_id: 0,
            ans_count: 0,
            request_time: 0,
            resolve_time: 0,
            resolve_status: 0,
            result: Vec::new(),
        },
    };
    let bytes = packet.encode();
    let decoded = MyPacket::decode(bytes.as_slice()).unwrap();
    assert_eq!(decoded, packet);
}

#[test]
fn round_trip_extreme_integers() {
    let mut packet = sample_packet();
    packet.req.oracle_script_id = u64::MAX;
    packet.req.ans_count = u64::MAX - 1;
    packet.res.request_id = u64::MAX;
    packet.res.resolve_status = u8::MAX;
    let bytes = packet.encode();
    let decoded = MyPacket::decode(bytes.as_slice()).unwrap();
    assert_eq!(decoded, packet);
}

#[test]
fn trailing_bytes_are_tolerated() {
    let packet = sample_packet();
    let mut bytes = packet.encode();
    bytes.extend_from_slice(&[0xde, 0xad, 0xbe, 0xef]);
    let decoded = MyPacket::decode(bytes.as_slice()).unwrap();
    assert_eq!(decoded, packet);
}

#[test]
fn every_truncation_is_rejected() {
    let packet = sample_packet();
    let bytes = packet.encode();
    for n in 0..bytes.len() {
        let r = MyPacket::decode(&bytes[..n]);
        assert_eq!(r.unwrap_err(), DecodeError::Truncated);
    }
}

#[test]
fn oversized_length_prefix_is_rejected() {
    // A prefix claiming ten bytes with only two remaining.
    let bytes: Vec<u8> = vec![0, 0, 0, 10, 1, 2];
    let r = MyPacket::decode(bytes.as_slice());
    assert_eq!(r.unwrap_err(), DecodeError::Truncated);
}

#[test]
fn empty_buffer_is_rejected() {
    let bytes: Vec<u8> = Vec::new();
    let r = MyPacket::decode(bytes.as_slice());
    assert_eq!(r.unwrap_err(), DecodeError::Truncated);
}

#[test]
fn encoding_matches_reference_primitives() {
    // The wire format agrees with the reference OBI primitives, field by
    // field: length-prefixed strings and byte buffers, big-endian integers.
    let packet = sample_packet();
    let mut expected: Vec<u8> = Vec::new();
    expected.extend_from_slice(&String::from("front_end").try_to_vec().unwrap());
    expected.extend_from_slice(&1u64.try_to_vec().unwrap());
    expected.extend_from_slice(&packet.req.calldata.try_to_vec().unwrap());
    expected.extend_from_slice(&4u64.try_to_vec().unwrap());
    expected.extend_from_slice(&2u64.try_to_vec().unwrap());
    assert_eq!(packet.req.encode(), expected);

    let mut expected_res: Vec<u8> = Vec::new();
    expected_res.extend_from_slice(&String::from("front_end").try_to_vec().unwrap());
    expected_res.extend_from_slice(&13565u64.try_to_vec().unwrap());
    expected_res.extend_from_slice(&4u64.try_to_vec().unwrap());
    expected_res.extend_from_slice(&1592549507u64.try_to_vec().unwrap());
    expected_res.extend_from_slice(&1592549511u64.try_to_vec().unwrap());
    expected_res.extend_from_slice(&1u8.try_to_vec().unwrap());
    expected_res.extend_from_slice(&packet.res.result.try_to_vec().unwrap());
    assert_eq!(packet.res.encode(), expected_res);

    let mut expected_packet = expected.clone();
    expected_packet.extend_from_slice(&expected_res);
    assert_eq!(packet.encode(), expected_packet);
}

#[test]
fn encoding_is_deterministic() {
    let packet = sample_packet();
    assert_eq!(packet.encode(), sample_packet().encode());
}
