use gnet::datagram::{check_datagram, SendError, MAX_DATAGRAM_LEN};
use gnet::protocol::{AckId, ClientId, ClientProtocolPacket, ServerProtocolPacket, ServerProtocolPacketInner};
use gnet::server::{ack_bytes, challenge_bytes, welcome_bytes, PeerAddr, Registry, ServerAction, MAX_NESTING};

fn addr(port: u16) -> PeerAddr {
    PeerAddr { ip: 0x7f00_0001, port }
}

fn connect_bytes(challenge: &str) -> Vec<u8> {
    ClientProtocolPacket::Connect { challenge: challenge.to_string() }.encode()
}

#[test]
fn challenge_is_single_use() {
    let mut r = Registry::new();
    let id = r.register_client("secret".to_string()).unwrap();
    assert_eq!(id, ClientId::new(1));
    let first = r.handle_unreliable::<u8>(addr(1), &connect_bytes("secret"), None, 0);
    match first {
        ServerAction::Welcome { client, reply } => {
            assert_eq!(client, id);
            assert_eq!(reply, welcome_bytes());
        }
        _ => panic!("first use should bind"),
    }
    let second = r.handle_unreliable::<u8>(addr(2), &connect_bytes("secret"), None, 0);
    assert!(matches!(second, ServerAction::Ignore));
    assert_eq!(r.client_id(addr(1)), Some(id));
    assert_eq!(r.client_id(addr(2)), None);
}

#[test]
fn unknown_challenge_is_dropped() {
    let mut r = Registry::new();
    r.register_client("a".to_string()).unwrap();
    let act = r.handle_unreliable::<u8>(addr(1), &connect_bytes("b"), None, 0);
    assert!(matches!(act, ServerAction::Ignore));
    assert_eq!(r.client_id(addr(1)), None);
}

#[test]
fn duplicate_pending_challenge_refused() {
    let mut r = Registry::new();
    assert_eq!(r.register_client("x".to_string()), Some(ClientId::new(1)));
    assert_eq!(r.register_client("x".to_string()), None);
    assert_eq!(r.register_client("y".to_string()), Some(ClientId::new(2)));
}

#[test]
fn disconnect_cleanup() {
    let mut r = Registry::new();
    let id = r.register_client("c".to_string()).unwrap();
    r.register_unreliable_client(&"c".to_string(), addr(9)).unwrap();
    assert!(r.is_connected(id));
    assert_eq!(r.broadcast(&[1, 2]).unwrap(), vec![addr(9)]);
    r.unregister_client(id);
    assert!(!r.is_connected(id));
    assert_eq!(r.client_id(addr(9)), None);
    assert_eq!(r.broadcast(&[1, 2]).unwrap(), Vec::<PeerAddr>::new());
    // a user packet from the former address is no longer attributed
    let act = r.handle_unreliable(addr(9), &[1, 2, 3], Some(5u8), 0);
    assert!(matches!(act, ServerAction::Ignore));
    // and the old challenge is gone: a re-handshake needs a new connection
    let act = r.handle_unreliable::<u8>(addr(9), &connect_bytes("c"), None, 0);
    assert!(matches!(act, ServerAction::Ignore));
    let id2 = r.register_client("d".to_string()).unwrap();
    assert_eq!(id2, ClientId::new(2));
}

#[test]
fn disconnect_while_pending_drops_challenge() {
    let mut r = Registry::new();
    let id = r.register_client("p".to_string()).unwrap();
    r.unregister_client(id);
    assert_eq!(r.register_unreliable_client(&"p".to_string(), addr(3)), None);
}

#[test]
fn datagram_size_boundary() {
    let at_limit = vec![0u8; MAX_DATAGRAM_LEN];
    let over = vec![0u8; MAX_DATAGRAM_LEN + 1];
    assert_eq!(MAX_DATAGRAM_LEN, 1600);
    assert_eq!(check_datagram(&at_limit), Ok(()));
    assert_eq!(check_datagram(&over), Err(SendError::TooLarge));
    let mut r = Registry::new();
    r.register_client("c".to_string()).unwrap();
    r.register_unreliable_client(&"c".to_string(), addr(4)).unwrap();
    assert_eq!(r.broadcast(&at_limit).unwrap(), vec![addr(4)]);
    assert_eq!(r.broadcast(&over), Err(SendError::TooLarge));
}

#[test]
fn bound_traffic_routing() {
    let mut r = Registry::new();
    let id = r.register_client("c".to_string()).unwrap();
    r.register_unreliable_client(&"c".to_string(), addr(5)).unwrap();
    match r.handle_unreliable(addr(5), &[9, 9], Some(42u8), 0) {
        ServerAction::Deliver { client, packet } => {
            assert_eq!(client, id);
            assert_eq!(packet, 42);
        }
        _ => panic!("user packet should be delivered"),
    }
    let ack = ClientProtocolPacket::Ack { id: AckId::new(3) }.encode();
    match r.handle_unreliable::<u8>(addr(5), &ack, None, 0) {
        ServerAction::Acked { client, id: ack_id } => {
            assert_eq!(client, id);
            assert_eq!(ack_id, AckId::new(3));
        }
        _ => panic!("ack should be reported"),
    }
    assert!(matches!(r.handle_unreliable::<u8>(addr(5), &[0xde, 0xad], None, 0), ServerAction::Ignore));
}

#[test]
fn ack_request_is_reprocessed_then_acked() {
    let mut r = Registry::new();
    r.register_client("c".to_string()).unwrap();
    r.register_unreliable_client(&"c".to_string(), addr(6)).unwrap();
    let wrapped = ClientProtocolPacket::AckRequest { packet: vec![4, 5], id: AckId::new(11) }.encode();
    match r.handle_unreliable::<u8>(addr(6), &wrapped, None, 0) {
        ServerAction::Reprocess { inner, depth, ack } => {
            assert_eq!(inner, vec![4, 5]);
            assert_eq!(depth, 1);
            assert_eq!(ack, ack_bytes(AckId::new(11)));
            match ServerProtocolPacketInner::from(ServerProtocolPacket::decode(&ack).unwrap()) {
                ServerProtocolPacketInner::Ack { id } => assert_eq!(id, AckId::new(11)),
                _ => panic!("reply should be an ack"),
            }
        }
        _ => panic!("ack request should be reprocessed"),
    }
    let too_deep = r.handle_unreliable::<u8>(addr(6), &wrapped, None, MAX_NESTING);
    assert!(matches!(too_deep, ServerAction::Ignore));
}

#[test]
fn unbound_address_only_connect_is_heard() {
    let mut r = Registry::new();
    r.register_client("c".to_string()).unwrap();
    let ack = ClientProtocolPacket::Ack { id: AckId::new(1) }.encode();
    assert!(matches!(r.handle_unreliable::<u8>(addr(7), &ack, None, 0), ServerAction::Ignore));
    assert!(matches!(r.handle_unreliable(addr(7), &[1], Some(1u8), 0), ServerAction::Ignore));
}

#[test]
fn challenge_packet_bytes() {
    let b = challenge_bytes(&"tok".to_string());
    match ServerProtocolPacketInner::from(ServerProtocolPacket::decode(&b).unwrap()) {
        ServerProtocolPacketInner::ConnectChallenge { challenge } => assert_eq!(challenge, "tok"),
        _ => panic!("wrong packet"),
    }
}
