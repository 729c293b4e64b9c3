use semver::Version;
use tipt_node::protocol::{
    CNNodeRequestType, CNPacketType, ClientPacket, DecodeError, Field, NodeRequest,
};

fn string(text: &str) -> Vec<u8> {
    let mut bytes = vec![0xa0 + text.len() as u8];
    bytes.extend(text.as_bytes());
    bytes
}

fn packet(entries: &[(&str, Vec<u8>)]) -> Vec<u8> {
    let mut bytes = vec![0x80 + entries.len() as u8];
    for (key, value) in entries {
        bytes.extend(string(key));
        bytes.extend(value.clone());
    }
    bytes
}

fn body(version: &str) -> Vec<u8> {
    let mut bytes = vec![0x81];
    bytes.extend(string("ver"));
    bytes.extend(string(version));
    bytes
}

fn handshake() -> Vec<(&'static str, Vec<u8>)> {
    vec![
        ("id", vec![7]),
        ("pakt", vec![0]),
        ("reqt", vec![0]),
        ("body", body("1.2.3")),
    ]
}

fn decode(data: &[u8]) -> Result<(u8, Version), DecodeError> {
    assert!(ClientPacket::is_supported(data));
    match ClientPacket::deserialize(data) {
        Ok(ClientPacket::Request(NodeRequest::Handshake { id, version })) => Ok((id, version)),
        Err(e) => Err(e),
    }
}

fn version(text: &str) -> Version {
    Version::parse(text).unwrap()
}

#[test]
fn reads_a_handshake() {
    assert_eq!(decode(&packet(&handshake())), Ok((7, version("1.2.3"))));
}

#[test]
fn reads_prereleases_and_build_metadata() {
    let mut entries = handshake();
    entries[3].1 = body("2.0.1-rc.1+b7");
    assert_eq!(decode(&packet(&entries)), Ok((7, version("2.0.1-rc.1+b7"))));
}

#[test]
fn reads_fields_in_any_order() {
    let entries = handshake();
    for a in 0..4 {
        for b in 0..4 {
            for c in 0..4 {
                let d = 6 - (a + b + c) as i32;
                let mut order = vec![a, b, c];
                order.sort();
                order.dedup();
                if order.len() < 3 || d < 0 || d > 3 || order.contains(&(d as usize)) {
                    continue;
                }
                let shuffled = vec![
                    entries[a].clone(),
                    entries[b].clone(),
                    entries[c].clone(),
                    entries[d as usize].clone(),
                ];
                assert_eq!(decode(&packet(&shuffled)), Ok((7, version("1.2.3"))));
            }
        }
    }
}

#[test]
fn ignores_what_follows_a_packet() {
    let mut data = packet(&handshake());
    data.extend(vec![0xc1, 1, 2]);
    assert_eq!(decode(&data), Ok((7, version("1.2.3"))));
}

#[test]
fn reads_an_unused_error_field_and_padded_keys() {
    let mut entries = handshake();
    entries.push(("err", vec![0x92, 1, 0xc0]));
    assert_eq!(decode(&packet(&entries)), Ok((7, version("1.2.3"))));
    entries[0].0 = "id ";
    assert_eq!(decode(&packet(&entries)), Ok((7, version("1.2.3"))));
    entries[0].0 = "id  ";
    assert_eq!(decode(&packet(&entries)), Ok((7, version("1.2.3"))));
}

#[test]
fn spaces_behind_a_key_do_not_count() {
    for rest in [&b"\x07"[..], b"\xc0", b"", b"\x07\xa4pakt\x09", b"\x07\xa9", b"\x07\xa2id\x08"] {
        let mut plain = b"\x82\xa2id".to_vec();
        plain.extend(rest);
        let mut spaced = b"\x82\xa4id  ".to_vec();
        spaced.extend(rest);
        let mut long_head = b"\x82\xd9\x03id ".to_vec();
        long_head.extend(rest);
        assert_eq!(decode(&plain), decode(&spaced));
        assert_eq!(decode(&plain), decode(&long_head));
    }
}

#[test]
fn reads_wide_integers_and_long_heads() {
    let mut entries = handshake();
    entries[0].1 = vec![0xcf, 0, 0, 0, 0, 0, 0, 0, 255];
    entries[1].1 = vec![0xd0, 0];
    entries[2].1 = vec![0xce, 0, 0, 0, 0];
    assert_eq!(decode(&packet(&entries)), Ok((255, version("1.2.3"))));

    let mut data = vec![0xde, 0, 4];
    data.extend(packet(&entries)[1..].to_vec());
    assert_eq!(decode(&data), Ok((255, version("1.2.3"))));
}

#[test]
fn the_last_of_equal_fields_counts() {
    let mut entries = handshake();
    entries.push(("id", vec![9]));
    assert_eq!(decode(&packet(&entries)), Ok((9, version("1.2.3"))));
}

#[test]
fn malformed_packets() {
    assert_eq!(decode(&[]), Err(DecodeError::InvalidMap));
    assert_eq!(decode(&[0x93]), Err(DecodeError::InvalidMap));
    assert_eq!(decode(&[0x86]), Err(DecodeError::TooManyFields(6)));
    assert_eq!(decode(&[0xdf, 1, 0, 0, 0]), Err(DecodeError::TooManyFields(0x0100_0000)));
    assert_eq!(decode(&[0x81]), Err(DecodeError::InvalidKey));
    assert_eq!(decode(&[0x81, 7]), Err(DecodeError::InvalidKey));
    assert_eq!(decode(&[0x81, 0xa2, b'i']), Err(DecodeError::InvalidKey));
    assert_eq!(decode(&[0x81, 0xa1, 0xff, 0]), Err(DecodeError::InvalidKey));
    assert_eq!(
        decode(&packet(&[("fives", vec![0])])),
        Err(DecodeError::InvalidKey)
    );
    assert_eq!(
        decode(&packet(&[("nope", vec![0])])),
        Err(DecodeError::UnknownField(b'n', b'o', b'p', b'e'))
    );
    assert_eq!(
        decode(&packet(&[("", vec![0])])),
        Err(DecodeError::UnknownField(b' ', b' ', b' ', b' '))
    );
    assert_eq!(decode(&packet(&[("id", vec![0xff])])), Err(DecodeError::InvalidId));
    assert_eq!(
        decode(&packet(&[("id", vec![0xcd, 1, 0])])),
        Err(DecodeError::InvalidId)
    );
    assert_eq!(decode(&packet(&[("id", vec![])])), Err(DecodeError::InvalidId));
    assert_eq!(
        decode(&packet(&[("pakt", vec![0xc0])])),
        Err(DecodeError::InvalidPacketType)
    );
    assert_eq!(
        decode(&packet(&[("pakt", vec![3])])),
        Err(DecodeError::UnknownPacketType(3))
    );
    assert_eq!(
        decode(&packet(&[("reqt", vec![0xc1])])),
        Err(DecodeError::InvalidValue(tipt_node::msgpack::SizeError::Reserved))
    );
    assert_eq!(
        decode(&packet(&[("body", vec![])])),
        Err(DecodeError::InvalidValue(tipt_node::msgpack::SizeError::MissingMarker))
    );
}

#[test]
fn ids_of_any_integer_format() {
    for marker in 0..=255u8 {
        for last in [0u8, 9, 255] {
            let width = match marker {
                0..=0x7f => 0,
                0xcc | 0xd0 => 1,
                0xcd | 0xd1 => 2,
                0xce | 0xd2 => 4,
                0xcf | 0xd3 => 8,
                _ => 9,
            };
            let mut value = vec![marker];
            value.extend(vec![0; width]);
            if width > 0 {
                value[width] = last;
            }
            let negative = marker == 0xd0 && last == 255;
            // the value is all there is behind the key
            let expected = if width == 9 || negative {
                DecodeError::InvalidId
            } else {
                DecodeError::MissingField(Field::PacketType)
            };
            assert_eq!(decode(&packet(&[("id", value)])), Err(expected), "{:#x}", marker);
        }
    }
    // numbers that do not fit
    for value in [vec![0xcd, 1, 0], vec![0xd1, 0x80, 0], vec![0xcf, 1, 0, 0, 0, 0, 0, 0, 0]] {
        assert_eq!(decode(&packet(&[("id", value)])), Err(DecodeError::InvalidId));
    }
}

#[test]
fn missing_fields() {
    let fields = [Field::Id, Field::PacketType, Field::RequestType, Field::Body];
    for i in 0..4 {
        let mut entries = handshake();
        entries.remove(i);
        assert_eq!(decode(&packet(&entries)), Err(DecodeError::MissingField(fields[i])));
    }
    assert_eq!(decode(&[0x80]), Err(DecodeError::MissingField(Field::Id)));
}

#[test]
fn bad_requests() {
    let mut entries = handshake();
    entries[2].1 = vec![0xc2];
    assert_eq!(decode(&packet(&entries)), Err(DecodeError::InvalidRequestType));
    entries[2].1 = vec![4];
    assert_eq!(decode(&packet(&entries)), Err(DecodeError::UnknownRequestType(4)));
    entries[2].1 = vec![0];
    entries[3].1 = vec![0x80];
    assert_eq!(decode(&packet(&entries)), Err(DecodeError::InvalidBody));
    entries[3].1 = body("one");
    assert_eq!(decode(&packet(&entries)), Err(DecodeError::InvalidBody));
}

#[test]
fn unsupported_packets() {
    let mut entries = handshake();
    entries[1].1 = vec![1];
    assert!(!ClientPacket::is_supported(&packet(&entries)));
    entries[1].1 = vec![2];
    assert!(!ClientPacket::is_supported(&packet(&entries)));
    for reqt in vec![1, 2, 3, 0x20] {
        let mut entries = handshake();
        entries[2].1 = vec![reqt];
        assert!(!ClientPacket::is_supported(&packet(&entries)));
    }
}

#[test]
fn packets_that_end_inside_a_value() {
    assert_eq!(
        decode(b"\x83\xa2id\x07\xa4pakt\x00\xa4reqt\xcd\x00"),
        Err(DecodeError::TruncatedValue)
    );
    let data = packet(&handshake());
    assert_eq!(decode(&data[..data.len() - 1]), Err(DecodeError::TruncatedValue));
    assert_eq!(
        decode(&packet(&[("err", vec![0x91, 0xc4, 9, 1])])),
        Err(DecodeError::TruncatedValue)
    );
}

#[test]
fn a_handshake_is_made_of_an_id_and_a_version() {
    match ClientPacket::from_handshake(3, Some(version("1.0.0"))) {
        Ok(ClientPacket::Request(NodeRequest::Handshake { id, version: v })) => {
            assert_eq!((id, v), (3, version("1.0.0")));
        }
        Err(_) => unreachable!(),
    }
    assert!(matches!(
        ClientPacket::from_handshake(3, None),
        Err(DecodeError::InvalidBody)
    ));
}

#[test]
fn packet_types_and_their_numbers() {
    let all = [CNPacketType::Request, CNPacketType::Response, CNPacketType::Event];
    for (i, t) in all.iter().enumerate() {
        assert_eq!(u8::from(*t), i as u8);
        assert!(CNPacketType::from_raw(i as u8) == Some(*t));
    }
    for n in 3..=255 {
        assert!(CNPacketType::from_raw(n).is_none());
    }
}

#[test]
fn request_types_and_their_numbers() {
    let all = [
        (CNNodeRequestType::Handshake, 0, false, false),
        (CNNodeRequestType::Register, 1, true, false),
        (CNNodeRequestType::SignIn, 2, true, false),
        (CNNodeRequestType::GetInfo, 3, false, false),
        (CNNodeRequestType::Forward, 0x20, false, true),
    ];
    for (t, n, signed_out, signed_in) in all {
        assert_eq!(u8::from(t), n);
        assert!(CNNodeRequestType::from_raw(n) == Some(t));
        assert_eq!(t.requires_signed_out(), signed_out);
        assert_eq!(t.requires_signed_in(), signed_in);
    }
    let known = (0..=255u8).filter(|n| CNNodeRequestType::from_raw(*n).is_some()).count();
    assert_eq!(known, 5);
}
