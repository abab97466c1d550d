#![allow(non_snake_case)]

use air_traffic::packet::{
    deserialize_packet, FlagState, FrameError, Packet, PacketHeader,
};
use air_traffic::vector::Vector3;

#[test]
fn test_FlagState_init() {
    let warning = FlagState::init(0);
    let collision = FlagState::init(1);
    let coordinate = FlagState::init(2);
    let exit = FlagState::init(3);
    let error = FlagState::init(4);
    assert_eq!(warning, FlagState::WARNING);
    assert_eq!(collision, FlagState::COLLISION);
    assert_eq!(coordinate, FlagState::COORDINATE);
    assert_eq!(exit, FlagState::EXIT);
    assert_eq!(error, FlagState::WARNING);
}

#[test]
fn test_PacketHeader_init() {
    let expected = PacketHeader {
        flag: FlagState::WARNING,
        plane_id: 0,
        body_size: 0,
        seq_len: 0,
    };
    let actual = PacketHeader::init();

    assert_eq!(expected, actual)
}

#[test]
fn test_seralizePacketHeader() {
    let expected = PacketHeader {
        flag: FlagState::COLLISION,
        plane_id: 2,
        body_size: 5,
        seq_len: 12,
    };

    let seralized = expected.seralize_packet_header();

    assert_eq!(expected.flag, FlagState::init(seralized[0]));
    assert_eq!(expected.plane_id, seralized[1]);
    assert_eq!(
        expected.body_size,
        u16::from_le_bytes([seralized[2], seralized[3]])
    );
    assert_eq!(expected.seq_len, seralized[4]);
}

#[test]
fn test_deseralizePacketHeader_success() {
    let expected = PacketHeader {
        flag: FlagState::COLLISION,
        plane_id: 2,
        body_size: 5,
        seq_len: 12,
    };

    let seralized = expected.seralize_packet_header();

    let actual = PacketHeader::deseralize_packet_header(&seralized);

    assert_eq!(actual.unwrap(), expected);
}

#[test]
fn test_deseralizePacketHeader_lenLower5() {
    let expected = PacketHeader {
        flag: FlagState::COLLISION,
        plane_id: 2,
        body_size: 5,
        seq_len: 12,
    };

    let mut seralized = expected.seralize_packet_header();

    seralized.pop();
    let actual = PacketHeader::deseralize_packet_header(&seralized);

    let actualErrMsg = actual.unwrap_err().to_string();
    println!("{}", actualErrMsg);
    assert_eq!(
        actualErrMsg,
        "Vector does not have enought elements for a PacketHeader"
    );
}

#[test]
fn test_Packet_init() {
    let actual = Packet {
        header: PacketHeader::init(),
        body: Vec::new(),
    };

    let expected = Packet::init();

    assert_eq!(actual, expected);
}

#[test]
fn header_body_size_is_low_byte_first() {
    let header = PacketHeader {
        flag: FlagState::EXIT,
        plane_id: 9,
        body_size: 0x1234,
        seq_len: 3,
    };
    assert_eq!(header.seralize_packet_header(), vec![3, 9, 0x34, 0x12, 3]);
}

#[test]
fn frame_round_trip() {
    let body = b"TRANSMISSION".to_vec();
    let expected = Packet {
        header: PacketHeader {
            flag: FlagState::COORDINATE,
            plane_id: 1,
            body_size: body.len() as u16,
            seq_len: 1,
        },
        body,
    };
    let bytes = expected.seralize_packet_buf();
    assert_eq!(bytes.len(), 5 + 12);
    assert_eq!(&bytes[5..], b"TRANSMISSION");
    assert_eq!(deserialize_packet(&bytes), Ok(expected));
}

#[test]
fn frame_round_trip_largest_body() {
    let body = vec![0xAB; 65535];
    let expected = Packet {
        header: PacketHeader {
            flag: FlagState::EXIT,
            plane_id: 200,
            body_size: 65535,
            seq_len: 0,
        },
        body,
    };
    let bytes = expected.seralize_packet_buf();
    assert_eq!(bytes.len(), 5 + 65535);
    assert_eq!(deserialize_packet(&bytes), Ok(expected));
}

#[test]
fn frame_round_trip_empty_body() {
    let expected = Packet {
        header: PacketHeader {
            flag: FlagState::WARNING,
            plane_id: 4,
            body_size: 0,
            seq_len: 0,
        },
        body: Vec::new(),
    };
    let bytes = expected.seralize_packet_buf();
    assert_eq!(bytes, vec![0, 4, 0, 0, 0]);
    assert_eq!(deserialize_packet(&bytes), Ok(expected));
}

#[test]
fn frame_decode_leaves_following_bytes() {
    let bytes = vec![2, 7, 2, 0, 0, 10, 20, 30, 40];
    let packet = deserialize_packet(&bytes).unwrap();
    assert_eq!(packet.header.flag, FlagState::COORDINATE);
    assert_eq!(packet.header.plane_id, 7);
    assert_eq!(packet.body, vec![10, 20]);
}

#[test]
fn frame_decode_short_inputs_fail() {
    for len in 0..5 {
        let bytes = vec![1u8; len];
        assert_eq!(deserialize_packet(&bytes), Err(FrameError::ShortHeader));
        assert_eq!(
            PacketHeader::deseralize_packet_header(&bytes),
            Err(FrameError::ShortHeader)
        );
    }
}

#[test]
fn frame_decode_short_body_fails() {
    let bytes = vec![2, 7, 12, 0, 0, 1, 2, 3];
    assert_eq!(deserialize_packet(&bytes), Err(FrameError::ShortBody));
    assert_eq!(
        FrameError::ShortBody.to_string(),
        "Stream ended before the whole packet body was read"
    );
}

#[test]
fn unknown_tag_decodes_as_warning() {
    let bytes = vec![7, 5, 0, 0, 0];
    let packet = deserialize_packet(&bytes).unwrap();
    assert_eq!(packet.header.flag, FlagState::WARNING);
    assert_eq!(packet.header.plane_id, 5);
    assert_eq!(FlagState::init(7), FlagState::WARNING);
    assert_eq!(FlagState::init(255), FlagState::WARNING);
}

#[test]
fn flag_names_and_tags() {
    assert_eq!(FlagState::COORDINATE.to_string(), "COORDINATE");
    assert_eq!(FlagState::EXIT.to_string(), "EXIT");
    assert_eq!(FlagState::WARNING.to_string(), "WARNING");
    assert_eq!(FlagState::COLLISION.to_string(), "COLLISION");
    assert_eq!(FlagState::EXIT.tag(), 3);
    assert_eq!(FlagState::COLLISION.tag(), 1);
}

fn position(x: f32, y: f32, z: f32) -> Vector3 {
    Vector3 {
        x: x.to_bits(),
        y: y.to_bits(),
        z: z.to_bits(),
    }
}

#[test]
fn position_bytes_are_big_endian_floats() {
    let p = position(1.0, -2.5, 32000.0);
    let mut expected = Vec::new();
    expected.extend_from_slice(&1.0f32.to_be_bytes());
    expected.extend_from_slice(&(-2.5f32).to_be_bytes());
    expected.extend_from_slice(&32000.0f32.to_be_bytes());
    assert_eq!(p.to_bytes(), expected);
    assert_eq!(p.to_bytes()[0..4].to_vec(), vec![0x3F, 0x80, 0x00, 0x00]);
}

#[test]
fn position_round_trip() {
    for p in [
        position(0.0, 0.0, 0.0),
        position(3.6055512, -7.81025, 1e-30),
        position(f32::MAX, f32::MIN, -0.0),
        position(f32::INFINITY, f32::NEG_INFINITY, 123.456),
    ] {
        assert_eq!(Vector3::from_bytes(&p.to_bytes()), Some(p));
    }
    let back = Vector3::from_bytes(&position(3.6055512, -7.81025, 1e-30).to_bytes()).unwrap();
    assert_eq!(f32::from_bits(back.x), 3.6055512);
    assert_eq!(f32::from_bits(back.y), -7.81025);
}

#[test]
fn position_from_short_bytes_is_none() {
    assert_eq!(Vector3::from_bytes(&[0u8; 11]), None);
    assert_eq!(Vector3::from_bytes(&[]), None);
    let mut long = position(1.0, 2.0, 3.0).to_bytes();
    long.push(99);
    assert_eq!(Vector3::from_bytes(&long), Some(position(1.0, 2.0, 3.0)));
}
