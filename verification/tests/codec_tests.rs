use tunnel_codec::common_deserializers::{
    read_pascal_string, read_payload, ByteSource, DecodeFailure,
};
use tunnel_codec::tcp_tunnel::tunnel_tcp_contract::{u64_decimal, TunnelTcpContract};
use tunnel_codec::tcp_tunnel::tunnel_tcp_serializer::TunnelTcpSerializer;

fn round_trip(packet: TunnelTcpContract) -> TunnelTcpContract {
    let bytes = packet.serialize();
    let mut reader = ByteSource::new(bytes);
    let decoded = TunnelTcpContract::deserialize(&mut reader).unwrap();
    assert!(reader.is_exhausted());
    decoded
}

#[test]
fn test_connect() {
    let connect = TunnelTcpContract::ConnectTo {
        id: 5,
        url: "test:8080".to_string(),
    };

    let payload = connect.serialize();

    let mut socket_reader = ByteSource::new(payload);

    let result = TunnelTcpContract::deserialize(&mut socket_reader).unwrap();

    if let TunnelTcpContract::ConnectTo { id, url } = result {
        assert_eq!(id, 5);
        assert_eq!(url, "test:8080");
    } else {
        panic!("Invalid contract");
    }
}

#[test]
fn test_connected() {
    let connect = TunnelTcpContract::Connected(6);

    let payload = connect.serialize();

    let mut socket_reader = ByteSource::new(payload);

    let result = TunnelTcpContract::deserialize(&mut socket_reader).unwrap();

    if let TunnelTcpContract::Connected(result) = result {
        assert_eq!(result, 6);
    } else {
        panic!("Invalid contract");
    }
}

#[test]
fn test_can_no_connect() {
    let connect = TunnelTcpContract::CanNotConnect {
        id: 10,
        reason: "Reason".to_string(),
    };

    let payload = connect.serialize();

    let mut socket_reader = ByteSource::new(payload);

    let result = TunnelTcpContract::deserialize(&mut socket_reader).unwrap();

    if let TunnelTcpContract::CanNotConnect { id, reason } = result {
        assert_eq!(id, 10);
        assert_eq!(reason, "Reason");
    } else {
        panic!("Invalid contract");
    }
}

#[test]
fn test_connect_and_ping() {
    let connect = TunnelTcpContract::ConnectTo {
        id: 5,
        url: "test:8080".to_string(),
    };

    let mut payload = connect.serialize();

    let ping = TunnelTcpContract::Ping;

    let ping_paylod = ping.serialize();
    payload.extend_from_slice(&ping_paylod);

    let mut socket_reader = ByteSource::new(payload);

    let result = TunnelTcpContract::deserialize(&mut socket_reader).unwrap();

    if let TunnelTcpContract::ConnectTo { id, url } = result {
        assert_eq!(id, 5);
        assert_eq!(url, "test:8080");
    } else {
        panic!("Invalid contract");
    }

    let result = TunnelTcpContract::deserialize(&mut socket_reader).unwrap();

    if let TunnelTcpContract::Ping = result {
    } else {
        panic!("Invalid contract");
    }
}

#[test]
fn round_trip_ping_and_pong() {
    assert!(matches!(round_trip(TunnelTcpContract::Ping), TunnelTcpContract::Ping));
    assert!(matches!(round_trip(TunnelTcpContract::Pong), TunnelTcpContract::Pong));
}

#[test]
fn round_trip_connect_to_edge_ids() {
    for id in [0u32, 1, u32::MAX] {
        let packet = TunnelTcpContract::ConnectTo {
            id,
            url: String::new(),
        };
        if let TunnelTcpContract::ConnectTo { id: got, url } = round_trip(packet) {
            assert_eq!(got, id);
            assert_eq!(url, "");
        } else {
            panic!("Invalid contract");
        }
    }
}

#[test]
fn round_trip_connected_edge_ids() {
    for id in [0u32, u32::MAX] {
        if let TunnelTcpContract::Connected(got) = round_trip(TunnelTcpContract::Connected(id)) {
            assert_eq!(got, id);
        } else {
            panic!("Invalid contract");
        }
    }
}

#[test]
fn round_trip_disconnected_both_sides() {
    let a = round_trip(TunnelTcpContract::DisconnectedFromSideA(7));
    assert!(matches!(a, TunnelTcpContract::DisconnectedFromSideA(7)));
    let b = round_trip(TunnelTcpContract::DisconnectedFromSideB(8));
    assert!(matches!(b, TunnelTcpContract::DisconnectedFromSideB(8)));
}

#[test]
fn round_trip_payload_empty_and_large() {
    for bytes in [Vec::new(), vec![0u8; 100_000], (0..=255u8).collect::<Vec<u8>>()] {
        let packet = TunnelTcpContract::Payload {
            id: u32::MAX,
            payload: bytes.clone(),
        };
        if let TunnelTcpContract::Payload { id, payload } = round_trip(packet) {
            assert_eq!(id, u32::MAX);
            assert_eq!(payload, bytes);
        } else {
            panic!("Invalid contract");
        }
    }
}

#[test]
fn round_trip_greeting_multibyte_utf8() {
    let phrase = "caf\u{e9} \u{1F600} gr\u{fc}\u{df}e";
    let packet = TunnelTcpContract::Greeting(phrase.to_string());
    if let TunnelTcpContract::Greeting(got) = round_trip(packet) {
        assert_eq!(got, phrase);
    } else {
        panic!("Invalid contract");
    }
}

#[test]
fn text_boundary_255_bytes_round_trips() {
    let url = "u".repeat(255);
    let packet = TunnelTcpContract::ConnectTo {
        id: 3,
        url: url.clone(),
    };
    let bytes = packet.try_serialize().expect("255 bytes must encode");
    assert_eq!(bytes[5], 255);
    let mut reader = ByteSource::new(bytes);
    if let TunnelTcpContract::ConnectTo { id, url: got } =
        TunnelTcpContract::deserialize(&mut reader).unwrap()
    {
        assert_eq!(id, 3);
        assert_eq!(got, url);
    } else {
        panic!("Invalid contract");
    }
}

#[test]
fn text_boundary_256_bytes_is_rejected() {
    let packet = TunnelTcpContract::ConnectTo {
        id: 3,
        url: "u".repeat(256),
    };
    assert!(packet.try_serialize().is_none());
    let reason = TunnelTcpContract::CanNotConnect {
        id: 3,
        reason: "r".repeat(256),
    };
    assert!(reason.try_serialize().is_none());
    let greeting = TunnelTcpContract::Greeting("g".repeat(256));
    assert!(greeting.try_serialize().is_none());
}

#[test]
fn connect_to_exact_bytes() {
    let packet = TunnelTcpContract::ConnectTo {
        id: 5,
        url: "test:8080".to_string(),
    };
    let mut expected = vec![2u8, 5, 0, 0, 0, 9];
    expected.extend_from_slice(b"test:8080");
    assert_eq!(packet.serialize(), expected);

    let mut reader = ByteSource::new(expected);
    if let TunnelTcpContract::ConnectTo { id, url } =
        TunnelTcpContract::deserialize(&mut reader).unwrap()
    {
        assert_eq!(id, 5);
        assert_eq!(url, "test:8080");
    } else {
        panic!("Invalid contract");
    }
}

#[test]
fn payload_exact_bytes() {
    let packet = TunnelTcpContract::Payload {
        id: 1,
        payload: vec![0xAA, 0xBB],
    };
    let expected = vec![7u8, 1, 0, 0, 0, 2, 0, 0, 0, 0xAA, 0xBB];
    assert_eq!(packet.serialize(), expected);
}

#[test]
fn tag_bytes_of_every_variant() {
    let packets = all_variants();
    let expected_tags = [0u8, 1, 2, 3, 4, 5, 6, 7, 8];
    for (packet, tag) in packets.iter().zip(expected_tags) {
        assert_eq!(packet.serialize()[0], tag);
    }
}

fn all_variants() -> Vec<TunnelTcpContract> {
    vec![
        TunnelTcpContract::Ping,
        TunnelTcpContract::Pong,
        TunnelTcpContract::ConnectTo {
            id: 5,
            url: "test:8080".to_string(),
        },
        TunnelTcpContract::Connected(6),
        TunnelTcpContract::CanNotConnect {
            id: 10,
            reason: "Reason".to_string(),
        },
        TunnelTcpContract::DisconnectedFromSideA(11),
        TunnelTcpContract::DisconnectedFromSideB(12),
        TunnelTcpContract::Payload {
            id: 1,
            payload: vec![0xAA, 0xBB],
        },
        TunnelTcpContract::Greeting("hello".to_string()),
    ]
}

#[test]
fn concatenated_stream_decodes_in_order() {
    let packets = all_variants();
    let mut stream = Vec::new();
    for packet in &packets {
        stream.extend_from_slice(&packet.serialize());
    }
    let mut reader = ByteSource::new(stream);
    for packet in &packets {
        let decoded = TunnelTcpContract::deserialize(&mut reader).unwrap();
        assert_eq!(decoded.get_packet_name(), packet.get_packet_name());
        assert_eq!(decoded.serialize(), packet.serialize());
    }
    assert!(reader.is_exhausted());
    assert_eq!(reader.remaining_len(), 0);
}

#[test]
fn unknown_tag_fails_cleanly() {
    for first in [9u8, 10, 42, 255] {
        let mut reader = ByteSource::new(vec![first, 0, 0, 0, 0]);
        let result = TunnelTcpContract::deserialize(&mut reader);
        assert!(matches!(result, Err(DecodeFailure::UnknownTag)));
    }
}

#[test]
fn truncated_packets_fail_incomplete() {
    for packet in all_variants() {
        let bytes = packet.serialize();
        for cut in 0..bytes.len() {
            let mut reader = ByteSource::new(bytes[..cut].to_vec());
            let result = TunnelTcpContract::deserialize(&mut reader);
            assert!(
                matches!(result, Err(DecodeFailure::Incomplete)),
                "prefix of length {} must be incomplete",
                cut
            );
        }
    }
}

#[test]
fn invalid_utf8_fails_as_malformed() {
    // tag 2, id 1, one text byte that is no valid UTF-8 sequence
    let mut reader = ByteSource::new(vec![2u8, 1, 0, 0, 0, 1, 0xFF]);
    let result = TunnelTcpContract::deserialize(&mut reader);
    assert!(matches!(result, Err(DecodeFailure::InvalidUtf8)));

    // a lone continuation byte inside a greeting
    let mut reader = ByteSource::new(vec![8u8, 2, 0x80, 0x80]);
    let result = TunnelTcpContract::deserialize(&mut reader);
    assert!(matches!(result, Err(DecodeFailure::InvalidUtf8)));
}

#[test]
fn is_pong_only_for_pong() {
    for (i, packet) in all_variants().iter().enumerate() {
        assert_eq!(packet.is_pong(), i == 1);
    }
}

#[test]
fn packet_names() {
    assert_eq!(TunnelTcpContract::Ping.get_packet_name(), "Ping");
    assert_eq!(TunnelTcpContract::Pong.get_packet_name(), "Pong");
    let connect = TunnelTcpContract::ConnectTo {
        id: 5,
        url: "test:8080".to_string(),
    };
    assert_eq!(connect.get_packet_name(), "ConnectTo: 5/test:8080");
    assert_eq!(TunnelTcpContract::Connected(0).get_packet_name(), "Connected:0");
    let failed = TunnelTcpContract::CanNotConnect {
        id: 10,
        reason: "Reason".to_string(),
    };
    assert_eq!(failed.get_packet_name(), "CanNptConnect:10. Reason:Reason");
    assert_eq!(
        TunnelTcpContract::DisconnectedFromSideA(4294967295).get_packet_name(),
        "Disconnected from side A 4294967295"
    );
    assert_eq!(
        TunnelTcpContract::DisconnectedFromSideB(12).get_packet_name(),
        "Disconnected from side B 12"
    );
    let data = TunnelTcpContract::Payload {
        id: 1,
        payload: vec![0xAA, 0xBB],
    };
    assert_eq!(data.get_packet_name(), "Payload from id 1 with len:2");
    assert_eq!(
        TunnelTcpContract::Greeting("node-a".to_string()).get_packet_name(),
        "Greeting from node-a"
    );
}

#[test]
fn decimal_rendering() {
    assert_eq!(u64_decimal(0), "0");
    assert_eq!(u64_decimal(7), "7");
    assert_eq!(u64_decimal(10), "10");
    assert_eq!(u64_decimal(305441), "305441");
    assert_eq!(u64_decimal(u64::MAX), "18446744073709551615");
}

#[test]
fn serializer_object_round_trip() {
    let serializer = TunnelTcpSerializer::new();
    let ping = serializer.get_ping();
    assert!(!ping.is_pong());
    assert_eq!(serializer.serialize(ping), vec![0u8]);

    let bytes = serializer.serialize(TunnelTcpContract::Connected(9));
    let mut serializer = TunnelTcpSerializer::new();
    let mut reader = ByteSource::new(bytes);
    let decoded = serializer.deserialize(&mut reader).unwrap();
    assert!(matches!(decoded, TunnelTcpContract::Connected(9)));
}

#[test]
fn read_pascal_string_consumes_exactly_its_block() {
    let mut bytes = vec![5u8];
    bytes.extend_from_slice(b"hello");
    bytes.push(77);
    let mut reader = ByteSource::new(bytes);
    assert_eq!(read_pascal_string(&mut reader).unwrap(), "hello");
    assert_eq!(reader.remaining_len(), 1);

    let mut empty = ByteSource::new(Vec::new());
    assert!(matches!(read_pascal_string(&mut empty), Err(DecodeFailure::Incomplete)));

    let mut short = ByteSource::new(vec![3u8, b'a']);
    assert!(matches!(read_pascal_string(&mut short), Err(DecodeFailure::Incomplete)));

    let mut bad = ByteSource::new(vec![1u8, 0xFF]);
    assert!(matches!(read_pascal_string(&mut bad), Err(DecodeFailure::InvalidUtf8)));
}

#[test]
fn read_payload_consumes_exactly_its_block() {
    let mut bytes = vec![3u8, 0, 0, 0, 1, 2, 3];
    bytes.push(99);
    let mut reader = ByteSource::new(bytes);
    assert_eq!(read_payload(&mut reader).unwrap(), vec![1, 2, 3]);
    assert_eq!(reader.remaining_len(), 1);

    let mut short = ByteSource::new(vec![4u8, 0, 0, 0, 1]);
    assert!(matches!(read_payload(&mut short), Err(DecodeFailure::Incomplete)));
}

#[test]
fn empty_source_is_incomplete() {
    let mut reader = ByteSource::new(Vec::new());
    let result = TunnelTcpContract::deserialize(&mut reader);
    assert!(matches!(result, Err(DecodeFailure::Incomplete)));
}
