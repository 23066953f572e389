use gnet::buffer::BufferResult;
use gnet::client::{ack_request_bytes, Client, ClientAction, ClientState};
use gnet::datagram::{SendError, MAX_DATAGRAM_LEN};
use gnet::protocol::{AckId, ClientId};
use gnet::server::{challenge_bytes, PeerAddr, Registry, ServerAction};

#[test]
fn happy_path_handshake() {
    let mut server = Registry::new();
    let mut client: Client<u8> = Client::new();
    let peer = PeerAddr { ip: 1, port: 2 };
    assert_eq!(client.state(), ClientState::Disconnected);
    assert!(client.connect());
    assert_eq!(client.state(), ClientState::EstablishingChannels);
    assert!(client.channels_ready());
    assert_eq!(client.state(), ClientState::AwaitingChallenge);

    // server accepts the reliable connection: Pending
    let id = server.register_client("ch".to_string()).unwrap();
    assert_eq!(id, ClientId::new(1));
    assert!(server.is_connected(id));
    let greeting = challenge_bytes(&"ch".to_string());

    let connect = match client.handle_incoming(&greeting, None, 0) {
        ClientAction::SendUnreliable { bytes } => bytes,
        _ => panic!("client should answer the challenge"),
    };
    assert_eq!(client.state(), ClientState::Authenticating);

    // server binds the address: Bound
    let welcome = match server.handle_unreliable::<u8>(peer, &connect, None, 0) {
        ServerAction::Welcome { client, reply } => {
            assert_eq!(client, id);
            reply
        }
        _ => panic!("server should welcome"),
    };
    assert_eq!(server.client_id(peer), Some(id));

    assert!(matches!(client.handle_incoming(&welcome, None, 0), ClientAction::Nothing));
    assert_eq!(client.state(), ClientState::Connected);

    // Active: user traffic flows both ways
    match server.handle_unreliable(peer, &[1], Some(7u8), 0) {
        ServerAction::Deliver { client, packet } => {
            assert_eq!(client, id);
            assert_eq!(packet, 7);
        }
        _ => panic!("user packet should reach the application"),
    }
    client.handle_incoming(&[2], Some(8u8), 0);
    client.handle_incoming(&[3], Some(9u8), 0);
    assert_eq!(client.recv(), vec![8, 9]);
    assert!(client.recv().is_empty());
}

#[test]
fn client_states_refuse_out_of_order() {
    let mut client: Client<u8> = Client::new();
    assert!(!client.channels_ready());
    assert!(client.connect());
    assert!(!client.connect());
    client.connect_failed();
    assert_eq!(client.state(), ClientState::Disconnected);
    // a challenge before the channels are up is ignored
    let greeting = challenge_bytes(&"x".to_string());
    assert!(matches!(client.handle_incoming(&greeting, None, 0), ClientAction::Nothing));
    assert_eq!(client.state(), ClientState::Disconnected);
}

#[test]
fn client_send_checks() {
    let client: Client<u8> = Client::new();
    assert_eq!(client.send(&[1]), Err(SendError::NotConnected));
    let mut client: Client<u8> = Client::new();
    client.connect();
    client.channels_ready();
    let greeting = challenge_bytes(&"x".to_string());
    client.handle_incoming(&greeting, None, 0);
    let welcome = gnet::server::welcome_bytes();
    client.handle_incoming(&welcome, None, 0);
    assert_eq!(client.send(&vec![0u8; MAX_DATAGRAM_LEN]), Ok(()));
    assert_eq!(client.send(&vec![0u8; MAX_DATAGRAM_LEN + 1]), Err(SendError::TooLarge));
}

#[test]
fn client_reliable_send_and_server_ack() {
    let mut client: Client<u8> = Client::new();
    client.send_reliable(vec![5, 6]);
    let batch = client.process(0);
    assert_eq!(batch, vec![(AckId::new(0), vec![5, 6])]);
    let framed = ack_request_bytes(AckId::new(0), &vec![5, 6]);
    assert_eq!(framed, bincode::serialize(&(0u32, vec![5u8, 6], 0u32)).unwrap());
    client.settle(AckId::new(0), vec![5, 6], BufferResult::Attempted, 0);
    assert_eq!(client.process(300), vec![(AckId::new(0), vec![5, 6])]);
    client.settle(AckId::new(0), vec![5, 6], BufferResult::Attempted, 300);
    let ack = gnet::server::ack_bytes(AckId::new(0));
    client.handle_incoming(&ack, None, 0);
    assert!(client.process(10_000).is_empty());
}

#[test]
fn client_answers_ack_requests() {
    let mut client: Client<u8> = Client::new();
    let inner = vec![1u8];
    let req = gnet::protocol::ServerProtocolPacketInner::AckRequest { packet: inner.clone(), id: AckId::new(4) }
        .into_packet()
        .encode();
    match client.handle_incoming(&req, None, 2) {
        ClientAction::Reprocess { inner: got, depth, ack } => {
            assert_eq!(got, inner);
            assert_eq!(depth, 3);
            assert_eq!(ack, bincode::serialize(&(1u32, 4u32)).unwrap());
        }
        _ => panic!("should reprocess"),
    }
    assert!(matches!(client.handle_incoming(&[0xff], None, 0), ClientAction::Nothing));
}
