use gnet::protocol::{AckId, ClientProtocolPacket, ServerProtocolPacket, ServerProtocolPacketInner};

fn connect(challenge: &str) -> ClientProtocolPacket {
    ClientProtocolPacket::Connect { challenge: challenge.to_string() }
}

#[test]
fn client_connect_matches_bincode() {
    let bytes = connect("challenge_1").encode();
    assert_eq!(bytes, bincode::serialize(&(2u32, "challenge_1")).unwrap());
}

#[test]
fn client_ack_request_matches_bincode() {
    let p = ClientProtocolPacket::AckRequest { packet: vec![1, 2, 3], id: AckId::new(9) };
    assert_eq!(p.encode(), bincode::serialize(&(0u32, vec![1u8, 2, 3], 9u32)).unwrap());
}

#[test]
fn client_ack_exact_bytes() {
    let p = ClientProtocolPacket::Ack { id: AckId::new(0x0102_0304) };
    assert_eq!(p.encode(), vec![1, 0, 0, 0, 4, 3, 2, 1]);
}

#[test]
fn server_welcome_matches_bincode() {
    let p = ServerProtocolPacketInner::Welcome {}.into_packet();
    assert_eq!(p.encode(), bincode::serialize(&(3u32, 0u16)).unwrap());
    assert_eq!(p.encode(), vec![3, 0, 0, 0, 0, 0]);
}

#[test]
fn server_challenge_matches_bincode() {
    let p = ServerProtocolPacket::from(ServerProtocolPacketInner::ConnectChallenge {
        challenge: "héllo".to_string(),
    });
    assert_eq!(p.encode(), bincode::serialize(&(2u32, "héllo", 0u16)).unwrap());
}

#[test]
fn client_round_trip() {
    let p = connect("abc");
    match ClientProtocolPacket::decode(&p.encode()) {
        Some(ClientProtocolPacket::Connect { challenge }) => assert_eq!(challenge, "abc"),
        other => panic!("unexpected {:?}", other),
    }
    let p = ClientProtocolPacket::AckRequest { packet: vec![7; 20], id: AckId::new(5) };
    match ClientProtocolPacket::decode(&p.encode()) {
        Some(ClientProtocolPacket::AckRequest { packet, id }) => {
            assert_eq!(packet, vec![7; 20]);
            assert_eq!(id, AckId::new(5));
        }
        other => panic!("unexpected {:?}", other),
    }
}

#[test]
fn server_round_trip_keeps_marker() {
    let p = ServerProtocolPacket {
        inner: ServerProtocolPacketInner::Ack { id: AckId::new(77) },
        marker: gnet::protocol::ProtocolMarker { version: 513 },
    };
    let back = ServerProtocolPacket::decode(&p.encode()).unwrap();
    assert_eq!(back.marker.version, 513);
    match ServerProtocolPacketInner::from(back) {
        ServerProtocolPacketInner::Ack { id } => assert_eq!(id, AckId::new(77)),
        other => panic!("unexpected {:?}", other),
    }
}

#[test]
fn decode_rejects_trailing_bytes() {
    let mut bytes = connect("abc").encode();
    bytes.push(0);
    assert!(ClientProtocolPacket::decode(&bytes).is_none());
    let mut bytes = ServerProtocolPacketInner::Welcome {}.into_packet().encode();
    bytes.push(0);
    assert!(ServerProtocolPacket::decode(&bytes).is_none());
}

#[test]
fn decode_rejects_short_and_unknown() {
    assert!(ClientProtocolPacket::decode(&[]).is_none());
    assert!(ClientProtocolPacket::decode(&[1, 0, 0, 0, 5, 0, 0]).is_none());
    assert!(ClientProtocolPacket::decode(&[3, 0, 0, 0]).is_none());
    assert!(ServerProtocolPacket::decode(&[4, 0, 0, 0, 0, 0]).is_none());
    // length prefix larger than what follows
    assert!(ClientProtocolPacket::decode(&[2, 0, 0, 0, 9, 0, 0, 0, 0, 0, 0, 0, 97]).is_none());
}

#[test]
fn decode_rejects_invalid_utf8() {
    let bytes = vec![2, 0, 0, 0, 1, 0, 0, 0, 0, 0, 0, 0, 0xff];
    assert!(ClientProtocolPacket::decode(&bytes).is_none());
    let ok = vec![2, 0, 0, 0, 1, 0, 0, 0, 0, 0, 0, 0, b'z'];
    assert!(ClientProtocolPacket::decode(&ok).is_some());
}

#[test]
fn marker_and_ids() {
    assert_eq!(gnet::protocol::ProtocolMarker::new().version, 0);
    assert_eq!(gnet::protocol::ClientId::new(4).0, 4);
    assert_eq!(AckId::new(4).0, 4);
    let p = ServerProtocolPacketInner::Welcome {}.into_packet();
    assert_eq!(p.marker.version, 0);
}
