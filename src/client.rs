//! The client side of a connection: the handshake that binds the unreliable
//! transport to the reliable one, reliable sends, and the demultiplexing of
//! what arrives into protocol work and application packets.
//!
//! The transports are the caller's: this type decides, the caller performs
//! each action it returns and reports what arrives.
use vstd::prelude::*;

use crate::buffer::{
    after_add, after_ack, after_process, after_settle, due, BufferResult, BufferView, ReliableBuffer,
};
use crate::datagram::{check_datagram, SendError, MAX_DATAGRAM_LEN};
use crate::protocol::{
    client_wire, parse_server, AckId, ClientMsg, ClientProtocolPacket, ServerMsg, ServerProtocolPacket,
    ServerProtocolPacketInner,
};
use crate::server::MAX_NESTING;

verus! {

/// Where a client stands in its handshake.
#[derive(Clone, Copy, Debug, PartialEq, Eq, Structural)]
pub enum ClientState {
    Disconnected,
    /// Both transports are being negotiated.
    EstablishingChannels,
    /// The reliable transport is up; waiting for the server's challenge.
    AwaitingChallenge,
    /// The challenge went out over the unreliable transport; waiting for
    /// `Welcome`.
    Authenticating,
    Connected,
}

/// What the caller is to do after bytes arrived.
pub enum ClientAction {
    /// Send `bytes` over the unreliable transport.
    SendUnreliable { bytes: Vec<u8> },
    /// Process `inner` as if it had arrived directly, at nesting `depth`, then
    /// send `ack` over the unreliable transport.
    Reprocess { inner: Vec<u8>, depth: u32, ack: Vec<u8> },
    /// Nothing to do.
    Nothing,
}

/// What a client holds: its handshake state, its reliable-delivery buffer of
/// encoded messages, and the application packets received and not yet taken.
pub struct ClientView<I> {
    pub state: ClientState,
    pub buffer: BufferView<Vec<u8>>,
    pub inbound: Seq<I>,
}

pub struct Client<I> {
    state: ClientState,
    buffer: ReliableBuffer<Vec<u8>>,
    inbound: Vec<I>,
}

impl<I> View for Client<I> {
    type V = ClientView<I>;

    closed spec fn view(&self) -> ClientView<I> {
        ClientView { state: self.state, buffer: self.buffer@, inbound: self.inbound@ }
    }
}

/// The state after a server protocol packet `m` arrived in state `s`.
pub open spec fn next_state(s: ClientState, m: ServerMsg) -> ClientState {
    match m {
        ServerMsg::ConnectChallenge { .. } => if s == ClientState::AwaitingChallenge {
            ClientState::Authenticating
        } else {
            s
        },
        ServerMsg::Welcome => if s == ClientState::Authenticating {
            ClientState::Connected
        } else {
            s
        },
        _ => s,
    }
}

/// The bytes of the client's `Ack` packet for `id`.
pub open spec fn client_ack_wire(id: u32) -> Seq<u8> {
    client_wire(ClientMsg::Ack { id })
}

/// The bytes that carry `payload` under `id` over the unreliable transport,
/// asking the server to acknowledge it.
pub fn ack_request_bytes(id: AckId, payload: &Vec<u8>) -> (r: Vec<u8>)
    ensures
        r@ == client_wire(ClientMsg::AckRequest { packet: payload@, id: id.0 }),
{
    ClientProtocolPacket::AckRequest { packet: payload.clone(), id }.encode()
}

impl<I> Client<I> {
    pub fn new() -> (r: Client<I>)
        ensures
            r@.state == ClientState::Disconnected,
            r@.buffer.pending.len() == 0,
            r@.buffer.sent.len() == 0,
            r@.buffer.next == 0,
            r@.inbound.len() == 0,
    {
        Client { state: ClientState::Disconnected, buffer: ReliableBuffer::new(), inbound: Vec::new() }
    }

    pub fn state(&self) -> (r: ClientState)
        ensures
            r == self@.state,
    {
        self.state
    }

    /// Starts a connection: both transports are to be negotiated. Refused
    /// (`false`, nothing changes) unless the client is disconnected.
    pub fn connect(&mut self) -> (r: bool)
        ensures
            r == (old(self)@.state == ClientState::Disconnected),
            final(self)@ == (ClientView {
                state: if r {
                    ClientState::EstablishingChannels
                } else {
                    old(self)@.state
                },
                ..old(self)@
            }),
    {
        if self.state == ClientState::Disconnected {
            self.state = ClientState::EstablishingChannels;
            true
        } else {
            false
        }
    }

    /// Both transports are up: wait for the server's challenge. Refused
    /// (`false`, nothing changes) unless they were being negotiated.
    pub fn channels_ready(&mut self) -> (r: bool)
        ensures
            r == (old(self)@.state == ClientState::EstablishingChannels),
            final(self)@ == (ClientView {
                state: if r {
                    ClientState::AwaitingChallenge
                } else {
                    old(self)@.state
                },
                ..old(self)@
            }),
    {
        if self.state == ClientState::EstablishingChannels {
            self.state = ClientState::AwaitingChallenge;
            true
        } else {
            false
        }
    }

    /// A transport could not be negotiated: the attempt ends and the client
    /// is disconnected.
    pub fn connect_failed(&mut self)
        ensures
            final(self)@ == (ClientView { state: ClientState::Disconnected, ..old(self)@ }),
    {
        self.state = ClientState::Disconnected;
    }

    /// Decides what to do with `bytes` that arrived from the server over
    /// either transport. `user` is the bytes read as an application packet,
    /// where they read as one: such a packet is queued for `recv`, and only
    /// bytes that are no application packet are read as a protocol packet.
    /// Undecodable bytes are dropped. `depth` counts how deep this lies
    /// inside acknowledgement requests.
    pub fn handle_incoming(&mut self, bytes: &[u8], user: Option<I>, depth: u32) -> (r: ClientAction)
        ensures
            match user {
                Some(u) => final(self)@ == (ClientView {
                    inbound: old(self)@.inbound.push(u),
                    ..old(self)@
                }) && r is Nothing,
                None => match parse_server(bytes@) {
                    None => final(self)@ == old(self)@ && r is Nothing,
                    Some((m, _)) => {
                        &&& final(self)@.state == next_state(old(self)@.state, m)
                        &&& final(self)@.inbound == old(self)@.inbound
                        &&& final(self)@.buffer == match m {
                            ServerMsg::Ack { id } => after_ack(old(self)@.buffer, AckId(id)),
                            _ => old(self)@.buffer,
                        }
                        &&& match m {
                            ServerMsg::ConnectChallenge { challenge } => if old(self)@.state
                                == ClientState::AwaitingChallenge {
                                r matches ClientAction::SendUnreliable { bytes: out } && out@
                                    == client_wire(ClientMsg::Connect { challenge })
                            } else {
                                r is Nothing
                            },
                            ServerMsg::AckRequest { packet, id } => if depth < MAX_NESTING {
                                r matches ClientAction::Reprocess { inner, depth: d, ack } && inner@
                                    == packet && d == depth + 1 && ack@ == client_ack_wire(id)
                            } else {
                                r is Nothing
                            },
                            _ => r is Nothing,
                        }
                    },
                },
            },
    {
        if let Some(u) = user {
            self.inbound.push(u);
            return ClientAction::Nothing;
        }
        let packet = match ServerProtocolPacket::decode(bytes) {
            Some(p) => p,
            None => return ClientAction::Nothing,
        };
        match ServerProtocolPacketInner::from(packet) {
            ServerProtocolPacketInner::ConnectChallenge { challenge } => {
                if self.state == ClientState::AwaitingChallenge {
                    self.state = ClientState::Authenticating;
                    let bytes = ClientProtocolPacket::Connect { challenge }.encode();
                    ClientAction::SendUnreliable { bytes }
                } else {
                    ClientAction::Nothing
                }
            },
            ServerProtocolPacketInner::Welcome {  } => {
                if self.state == ClientState::Authenticating {
                    self.state = ClientState::Connected;
                }
                ClientAction::Nothing
            },
            ServerProtocolPacketInner::Ack { id } => {
                self.buffer.ack(&id);
                ClientAction::Nothing
            },
            ServerProtocolPacketInner::AckRequest { packet, id } => {
                if depth < MAX_NESTING {
                    let ack = ClientProtocolPacket::Ack { id }.encode();
                    ClientAction::Reprocess { inner: packet, depth: depth + 1, ack }
                } else {
                    ClientAction::Nothing
                }
            },
        }
    }

    /// Queues an encoded application packet for delivery at least once; it
    /// goes out from the next `process` on.
    pub fn send_reliable(&mut self, payload: Vec<u8>)
        ensures
            final(self)@ == (ClientView {
                buffer: after_add(old(self)@.buffer, payload),
                ..old(self)@
            }),
    {
        self.buffer.add(payload);
    }

    /// Clears an encoded application packet for a best-effort send over the
    /// unreliable transport: only once connected, and only if it fits.
    pub fn send(&self, payload: &[u8]) -> (r: Result<(), SendError>)
        ensures
            self@.state != ClientState::Connected ==> r == Err::<(), SendError>(
                SendError::NotConnected,
            ),
            self@.state == ClientState::Connected ==> (r is Ok <==> payload@.len()
                <= MAX_DATAGRAM_LEN),
            self@.state == ClientState::Connected && r is Err ==> r == Err::<(), SendError>(
                SendError::TooLarge,
            ),
    {
        if self.state != ClientState::Connected {
            return Err(SendError::NotConnected);
        }
        check_datagram(payload)
    }

    /// Hands out the messages of the reliable-delivery buffer that are due at
    /// `now`; each must come back through `settle`.
    pub fn process(&mut self, now: u64) -> (batch: Vec<(AckId, Vec<u8>)>)
        ensures
            batch@ == due(old(self)@.buffer, now),
            final(self)@ == (ClientView {
                buffer: after_process(old(self)@.buffer, now),
                ..old(self)@
            }),
    {
        self.buffer.process(now)
    }

    /// Records what became of the attempt at `now` to send `payload` under
    /// `id`.
    pub fn settle(&mut self, id: AckId, payload: Vec<u8>, outcome: BufferResult, now: u64)
        ensures
            final(self)@ == (ClientView {
                buffer: after_settle(old(self)@.buffer, id, payload, outcome, now),
                ..old(self)@
            }),
    {
        self.buffer.settle(id, payload, outcome, now);
    }

    /// Takes the application packets received so far, oldest first.
    pub fn recv(&mut self) -> (r: Vec<I>)
        ensures
            r@ == old(self)@.inbound,
            final(self)@ == (ClientView { inbound: Seq::empty(), ..old(self)@ }),
    {
        let mut taken: Vec<I> = Vec::new();
        std::mem::swap(&mut self.inbound, &mut taken);
        taken
    }
}

} // verus!
