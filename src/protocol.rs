//! Protocol packets: the handshake and acknowledgement messages that share
//! the wire with the application's own payloads, and their byte encoding.
use vstd::prelude::*;
use vstd::utf8::*;

use crate::wire::{
    bytes_field, lemma_bytes_field, lemma_bytes_u16, lemma_bytes_u32, lemma_parse_bytes_field,
    lemma_u16, lemma_u32, le_u16, le_u32, parse_bytes_field, put_bytes, put_text, put_u16, put_u32, read_bytes,
    read_u16, read_u32, text_field, u16_of, u32_of,
};

verus! {

/// Identifies one message sent through the reliable-delivery buffer.
#[derive(Clone, Copy, Debug, PartialEq, Eq, Hash, Structural)]
pub struct AckId(pub u32);

impl AckId {
    pub fn new(id: u32) -> (r: AckId)
        ensures
            r.0 == id,
    {
        AckId(id)
    }
}

/// Identifies one logical client connection on the server.
#[derive(Clone, Copy, Debug, PartialEq, Eq, PartialOrd, Ord, Hash, Structural)]
pub struct ClientId(pub u32);

impl ClientId {
    pub fn new(id: u32) -> (r: ClientId)
        ensures
            r.0 == id,
    {
        ClientId(id)
    }
}

/// Schema version carried by server protocol packets, so that their bytes
/// are unlikely to read as an application payload.
#[derive(Clone, Copy, Debug, PartialEq, Eq, Structural)]
pub struct ProtocolMarker {
    pub version: u16,
}

impl ProtocolMarker {
    pub fn new() -> (r: ProtocolMarker)
        ensures
            r.version == 0,
    {
        ProtocolMarker { version: 0 }
    }
}

/// Client to server protocol packet.
#[derive(Clone, Debug)]
pub enum ClientProtocolPacket {
    AckRequest { packet: Vec<u8>, id: AckId },
    Ack { id: AckId },
    Connect { challenge: String },
}

/// What a client protocol packet holds.
pub enum ClientMsg {
    AckRequest { packet: Seq<u8>, id: u32 },
    Ack { id: u32 },
    Connect { challenge: Seq<char> },
}

impl View for ClientProtocolPacket {
    type V = ClientMsg;

    open spec fn view(&self) -> ClientMsg {
        match self {
            ClientProtocolPacket::AckRequest { packet, id } => ClientMsg::AckRequest {
                packet: packet@,
                id: id.0,
            },
            ClientProtocolPacket::Ack { id } => ClientMsg::Ack { id: id.0 },
            ClientProtocolPacket::Connect { challenge } => ClientMsg::Connect {
                challenge: challenge@,
            },
        }
    }
}

/// Server to client protocol packet, without its marker.
#[derive(Clone, Debug)]
pub enum ServerProtocolPacketInner {
    AckRequest { packet: Vec<u8>, id: AckId },
    Ack { id: AckId },
    ConnectChallenge { challenge: String },
    Welcome {},
}

/// What a server protocol packet holds, without its marker.
pub enum ServerMsg {
    AckRequest { packet: Seq<u8>, id: u32 },
    Ack { id: u32 },
    ConnectChallenge { challenge: Seq<char> },
    Welcome,
}

impl View for ServerProtocolPacketInner {
    type V = ServerMsg;

    open spec fn view(&self) -> ServerMsg {
        match self {
            ServerProtocolPacketInner::AckRequest { packet, id } => ServerMsg::AckRequest {
                packet: packet@,
                id: id.0,
            },
            ServerProtocolPacketInner::Ack { id } => ServerMsg::Ack { id: id.0 },
            ServerProtocolPacketInner::ConnectChallenge { challenge } => ServerMsg::ConnectChallenge {
                challenge: challenge@,
            },
            ServerProtocolPacketInner::Welcome {  } => ServerMsg::Welcome,
        }
    }
}

/// Server to client protocol packet as it goes on the wire.
#[derive(Clone, Debug)]
pub struct ServerProtocolPacket {
    pub inner: ServerProtocolPacketInner,
    pub marker: ProtocolMarker,
}

impl View for ServerProtocolPacket {
    type V = (ServerMsg, u16);

    open spec fn view(&self) -> (ServerMsg, u16) {
        (self.inner@, self.marker.version)
    }
}

// ---- encoding -------------------------------------------------------------

/// The bytes of a client protocol packet: its variant's index as a `u32`,
/// then its fields in order.
pub open spec fn client_wire(m: ClientMsg) -> Seq<u8> {
    match m {
        ClientMsg::AckRequest { packet, id } => le_u32(0) + bytes_field(packet) + le_u32(id),
        ClientMsg::Ack { id } => le_u32(1) + le_u32(id),
        ClientMsg::Connect { challenge } => le_u32(2) + text_field(challenge),
    }
}

/// The bytes of a server packet body: its variant's index as a `u32`, then
/// its fields in order.
pub open spec fn server_body_wire(m: ServerMsg) -> Seq<u8> {
    match m {
        ServerMsg::AckRequest { packet, id } => le_u32(0) + bytes_field(packet) + le_u32(id),
        ServerMsg::Ack { id } => le_u32(1) + le_u32(id),
        ServerMsg::ConnectChallenge { challenge } => le_u32(2) + text_field(challenge),
        ServerMsg::Welcome => le_u32(3),
    }
}

/// The bytes of a server protocol packet: its body, then the marker.
pub open spec fn server_wire(m: (ServerMsg, u16)) -> Seq<u8> {
    server_body_wire(m.0) + le_u16(m.1)
}

/// A client packet whose fields fit the length prefixes of the wire.
pub open spec fn client_msg_fits(m: ClientMsg) -> bool {
    match m {
        ClientMsg::AckRequest { packet, .. } => packet.len() <= u64::MAX,
        ClientMsg::Ack { .. } => true,
        ClientMsg::Connect { challenge } => encode_utf8(challenge).len() <= u64::MAX,
    }
}

/// A server packet whose fields fit the length prefixes of the wire.
pub open spec fn server_msg_fits(m: ServerMsg) -> bool {
    match m {
        ServerMsg::AckRequest { packet, .. } => packet.len() <= u64::MAX,
        ServerMsg::ConnectChallenge { challenge } => encode_utf8(challenge).len() <= u64::MAX,
        _ => true,
    }
}

// ---- decoding -------------------------------------------------------------

/// Reads a text field at the start of `s`: the text and how many bytes it
/// took, where the field is framed and holds well-formed UTF-8.
pub open spec fn parse_text_field(s: Seq<u8>) -> Option<(Seq<char>, int)> {
    match parse_bytes_field(s) {
        Some((f, n)) => if valid_utf8(f) {
            Some((decode_utf8(f), n))
        } else {
            None
        },
        None => None,
    }
}

/// Reads the bytes of a client protocol packet; `None` where they are not
/// exactly one encoded packet, with no bytes left over.
pub open spec fn parse_client(b: Seq<u8>) -> Option<ClientMsg> {
    if b.len() < 4 {
        None
    } else {
        let tag = u32_of(b.subrange(0, 4));
        let rest = b.subrange(4, b.len() as int);
        if tag == 0 {
            match parse_bytes_field(rest) {
                Some((f, n)) => if rest.len() - n == 4 {
                    Some(ClientMsg::AckRequest { packet: f, id: u32_of(rest.subrange(n, n + 4)) })
                } else {
                    None
                },
                None => None,
            }
        } else if tag == 1 {
            if rest.len() == 4 {
                Some(ClientMsg::Ack { id: u32_of(rest) })
            } else {
                None
            }
        } else if tag == 2 {
            match parse_text_field(rest) {
                Some((t, n)) => if n == rest.len() {
                    Some(ClientMsg::Connect { challenge: t })
                } else {
                    None
                },
                None => None,
            }
        } else {
            None
        }
    }
}

/// Reads a server packet body at the start of `b`: the body and how many
/// bytes it took.
pub open spec fn parse_server_body(b: Seq<u8>) -> Option<(ServerMsg, int)> {
    if b.len() < 4 {
        None
    } else {
        let tag = u32_of(b.subrange(0, 4));
        let rest = b.subrange(4, b.len() as int);
        if tag == 0 {
            match parse_bytes_field(rest) {
                Some((f, n)) => if rest.len() - n >= 4 {
                    Some(
                        (
                            ServerMsg::AckRequest { packet: f, id: u32_of(rest.subrange(n, n + 4)) },
                            4 + n + 4,
                        ),
                    )
                } else {
                    None
                },
                None => None,
            }
        } else if tag == 1 {
            if rest.len() >= 4 {
                Some((ServerMsg::Ack { id: u32_of(rest.subrange(0, 4)) }, 8))
            } else {
                None
            }
        } else if tag == 2 {
            match parse_text_field(rest) {
                Some((t, n)) => Some((ServerMsg::ConnectChallenge { challenge: t }, 4 + n)),
                None => None,
            }
        } else if tag == 3 {
            Some((ServerMsg::Welcome, 4))
        } else {
            None
        }
    }
}

/// Reads the bytes of a server protocol packet; `None` where they are not
/// exactly one encoded packet, with no bytes left over.
pub open spec fn parse_server(b: Seq<u8>) -> Option<(ServerMsg, u16)> {
    match parse_server_body(b) {
        Some((m, n)) => if b.len() - n == 2 {
            Some((m, u16_of(b.subrange(n, n + 2))))
        } else {
            None
        },
        None => None,
    }
}

/// Relies on `std::str::from_utf8`: it accepts exactly the well-formed UTF-8
/// byte strings, and the text it gives back is made of those bytes.
#[verifier::external_body]
fn text_from_utf8(b: &[u8]) -> (r: Option<String>)
    ensures
        r is Some <==> valid_utf8(b@),
        r is Some ==> r.unwrap()@ == decode_utf8(b@),
{
    std::str::from_utf8(b).ok().map(|s| s.to_string())
}

/// Reads the text field framed at `pos`: the text and the position just past
/// it.
pub fn read_text(b: &[u8], pos: usize) -> (r: Option<(String, usize)>)
    requires
        pos <= b@.len(),
    ensures
        match parse_text_field(b@.subrange(pos as int, b@.len() as int)) {
            Some((t, n)) => r is Some && r.unwrap().0@ == t && r.unwrap().1 == pos + n,
            None => r is None,
        },
{
    let (f, end) = match read_bytes(b, pos) {
        Some(x) => x,
        None => return None,
    };
    match text_from_utf8(f.as_slice()) {
        Some(t) => Some((t, end)),
        None => None,
    }
}

impl ClientProtocolPacket {
    pub fn encode(&self) -> (r: Vec<u8>)
        ensures
            r@ == client_wire(self@),
    {
        let mut out: Vec<u8> = Vec::new();
        match self {
            ClientProtocolPacket::AckRequest { packet, id } => {
                put_u32(&mut out, 0);
                put_bytes(&mut out, packet.as_slice());
                put_u32(&mut out, id.0);
            },
            ClientProtocolPacket::Ack { id } => {
                put_u32(&mut out, 1);
                put_u32(&mut out, id.0);
            },
            ClientProtocolPacket::Connect { challenge } => {
                put_u32(&mut out, 2);
                put_text(&mut out, challenge.as_str());
            },
        }
        assert(out@ =~= client_wire(self@));
        out
    }

    pub fn decode(bytes: &[u8]) -> (r: Option<ClientProtocolPacket>)
        ensures
            match r {
                Some(p) => parse_client(bytes@) == Some(p@),
                None => parse_client(bytes@) is None,
            },
    {
        let tag = match read_u32(bytes, 0) {
            Some(t) => t,
            None => return None,
        };
        let ghost rest = bytes@.subrange(4, bytes@.len() as int);
        assert(bytes@.subrange(4, bytes@.len() as int) =~= rest);
        if tag == 0 {
            let (packet, pos) = match read_bytes(bytes, 4) {
                Some(x) => x,
                None => return None,
            };
            if bytes.len() - pos != 4 {
                return None;
            }
            let id = read_u32(bytes, pos).unwrap();
            assert(rest.subrange(pos - 4, pos as int) =~= bytes@.subrange(pos as int, pos + 4));
            Some(ClientProtocolPacket::AckRequest { packet, id: AckId(id) })
        } else if tag == 1 {
            if bytes.len() != 8 {
                return None;
            }
            let id = read_u32(bytes, 4).unwrap();
            assert(rest =~= bytes@.subrange(4, 8));
            Some(ClientProtocolPacket::Ack { id: AckId(id) })
        } else if tag == 2 {
            let (challenge, pos) = match read_text(bytes, 4) {
                Some(x) => x,
                None => return None,
            };
            if pos != bytes.len() {
                return None;
            }
            Some(ClientProtocolPacket::Connect { challenge })
        } else {
            None
        }
    }
}

impl ServerProtocolPacket {
    pub fn encode(&self) -> (r: Vec<u8>)
        ensures
            r@ == server_wire(self@),
    {
        let mut out: Vec<u8> = Vec::new();
        match &self.inner {
            ServerProtocolPacketInner::AckRequest { packet, id } => {
                put_u32(&mut out, 0);
                put_bytes(&mut out, packet.as_slice());
                put_u32(&mut out, id.0);
            },
            ServerProtocolPacketInner::Ack { id } => {
                put_u32(&mut out, 1);
                put_u32(&mut out, id.0);
            },
            ServerProtocolPacketInner::ConnectChallenge { challenge } => {
                put_u32(&mut out, 2);
                put_text(&mut out, challenge.as_str());
            },
            ServerProtocolPacketInner::Welcome {  } => {
                put_u32(&mut out, 3);
            },
        }
        put_u16(&mut out, self.marker.version);
        assert(out@ =~= server_wire(self@));
        out
    }

    pub fn decode(bytes: &[u8]) -> (r: Option<ServerProtocolPacket>)
        ensures
            match r {
                Some(p) => parse_server(bytes@) == Some(p@),
                None => parse_server(bytes@) is None,
            },
    {
        let tag = match read_u32(bytes, 0) {
            Some(t) => t,
            None => return None,
        };
        let ghost rest = bytes@.subrange(4, bytes@.len() as int);
        assert(bytes@.subrange(4, bytes@.len() as int) =~= rest);
        let (inner, pos) = if tag == 0 {
            let (packet, pos) = match read_bytes(bytes, 4) {
                Some(x) => x,
                None => return None,
            };
            let id = match read_u32(bytes, pos) {
                Some(id) => id,
                None => return None,
            };
            assert(pos + 4 <= bytes.len());
            assert(rest.subrange(pos - 4, pos as int) =~= bytes@.subrange(pos as int, pos + 4));
            (ServerProtocolPacketInner::AckRequest { packet, id: AckId(id) }, pos + 4)
        } else if tag == 1 {
            let id = match read_u32(bytes, 4) {
                Some(id) => id,
                None => return None,
            };
            assert(rest.subrange(0, 4) =~= bytes@.subrange(4, 8));
            (ServerProtocolPacketInner::Ack { id: AckId(id) }, 8)
        } else if tag == 2 {
            match read_text(bytes, 4) {
                Some((challenge, pos)) => (
                    ServerProtocolPacketInner::ConnectChallenge { challenge },
                    pos,
                ),
                None => return None,
            }
        } else if tag == 3 {
            (ServerProtocolPacketInner::Welcome {  }, 4)
        } else {
            return None;
        };
        assert(parse_server_body(bytes@) == Some((inner@, pos as int)));
        if bytes.len() - pos != 2 {
            return None;
        }
        let version = read_u16(bytes, pos).unwrap();
        Some(ServerProtocolPacket { inner, marker: ProtocolMarker { version } })
    }
}

impl ServerProtocolPacketInner {
    pub fn into_packet(self) -> (r: ServerProtocolPacket)
        ensures
            r.inner == self,
            r.marker.version == 0,
    {
        ServerProtocolPacket::from(self)
    }
}

impl From<ServerProtocolPacketInner> for ServerProtocolPacket {
    fn from(inner: ServerProtocolPacketInner) -> (r: ServerProtocolPacket)
        ensures
            r.inner == inner,
            r.marker.version == 0,
    {
        ServerProtocolPacket { inner, marker: ProtocolMarker::new() }
    }
}

impl vstd::std_specs::convert::FromSpecImpl<ServerProtocolPacketInner> for ServerProtocolPacket {
    open spec fn obeys_from_spec() -> bool {
        true
    }

    open spec fn from_spec(inner: ServerProtocolPacketInner) -> ServerProtocolPacket {
        ServerProtocolPacket { inner, marker: ProtocolMarker { version: 0 } }
    }
}

impl From<ServerProtocolPacket> for ServerProtocolPacketInner {
    fn from(packet: ServerProtocolPacket) -> (r: ServerProtocolPacketInner)
        ensures
            r == packet.inner,
    {
        packet.inner
    }
}

impl vstd::std_specs::convert::FromSpecImpl<ServerProtocolPacket> for ServerProtocolPacketInner {
    open spec fn obeys_from_spec() -> bool {
        true
    }

    open spec fn from_spec(packet: ServerProtocolPacket) -> ServerProtocolPacketInner {
        packet.inner
    }
}

// ---- laws of the encoding -------------------------------------------------

proof fn lemma_text_field(t: Seq<char>, tail: Seq<u8>)
    requires
        encode_utf8(t).len() <= u64::MAX,
    ensures
        text_field(t).len() == 8 + encode_utf8(t).len(),
        parse_text_field(text_field(t) + tail) == Some((t, 8 + encode_utf8(t).len() as int)),
{
    lemma_bytes_field(encode_utf8(t), tail);
    encode_utf8_valid_utf8(t);
    encode_utf8_decode_utf8(t);
}

proof fn lemma_parse_text_field(s: Seq<u8>)
    requires
        parse_text_field(s) is Some,
    ensures
        ({
            let (t, n) = parse_text_field(s).unwrap();
            &&& 8 <= n <= s.len()
            &&& encode_utf8(t).len() <= u64::MAX
            &&& s.subrange(0, n) == text_field(t)
        }),
{
    lemma_parse_bytes_field(s);
    let (f, n) = parse_bytes_field(s).unwrap();
    decode_utf8_encode_utf8(f);
}

proof fn lemma_client_ack_request(packet: Seq<u8>, id: u32)
    requires
        packet.len() <= u64::MAX,
    ensures
        parse_client(client_wire(ClientMsg::AckRequest { packet, id })) == Some(
            ClientMsg::AckRequest { packet, id },
        ),
{
    let b = client_wire(ClientMsg::AckRequest { packet, id });
    let rest = b.subrange(4, b.len() as int);
    lemma_u32(0);
    lemma_u32(id);
    assert(b.subrange(0, 4) =~= le_u32(0));
    assert(rest =~= bytes_field(packet) + le_u32(id));
    lemma_bytes_field(packet, le_u32(id));
    let n: int = 8 + packet.len() as int;
    assert(rest.subrange(n, n + 4) =~= le_u32(id));
}

proof fn lemma_client_ack(id: u32)
    ensures
        parse_client(client_wire(ClientMsg::Ack { id })) == Some(ClientMsg::Ack { id }),
{
    let b = client_wire(ClientMsg::Ack { id });
    lemma_u32(1);
    lemma_u32(id);
    assert(b.subrange(0, 4) =~= le_u32(1));
    assert(b.subrange(4, b.len() as int) =~= le_u32(id));
}

proof fn lemma_client_connect(challenge: Seq<char>)
    requires
        encode_utf8(challenge).len() <= u64::MAX,
    ensures
        parse_client(client_wire(ClientMsg::Connect { challenge })) == Some(
            ClientMsg::Connect { challenge },
        ),
{
    let b = client_wire(ClientMsg::Connect { challenge });
    lemma_u32(2);
    assert(b.subrange(0, 4) =~= le_u32(2));
    assert(b.subrange(4, b.len() as int) =~= text_field(challenge) + Seq::<u8>::empty());
    lemma_text_field(challenge, Seq::<u8>::empty());
}

/// Decoding the encoding of a client protocol packet gives the packet back.
pub proof fn lemma_client_round_trip(m: ClientMsg)
    requires
        client_msg_fits(m),
    ensures
        parse_client(client_wire(m)) == Some(m),
{
    match m {
        ClientMsg::AckRequest { packet, id } => lemma_client_ack_request(packet, id),
        ClientMsg::Ack { id } => lemma_client_ack(id),
        ClientMsg::Connect { challenge } => lemma_client_connect(challenge),
    }
}

/// Bytes that decode as a client protocol packet are exactly that packet's
/// encoding: nothing trails it and no other bytes give the same packet.
pub proof fn lemma_client_decode_exact(b: Seq<u8>)
    requires
        parse_client(b) is Some,
    ensures
        client_msg_fits(parse_client(b).unwrap()),
        client_wire(parse_client(b).unwrap()) == b,
{
    let tag = u32_of(b.subrange(0, 4));
    let rest = b.subrange(4, b.len() as int);
    lemma_bytes_u32(b.subrange(0, 4));
    assert(b =~= le_u32(tag) + rest);
    if tag == 0 {
        lemma_parse_bytes_field(rest);
        let (f, n) = parse_bytes_field(rest).unwrap();
        lemma_bytes_u32(rest.subrange(n, n + 4));
        assert(rest =~= rest.subrange(0, n) + rest.subrange(n, n + 4));
    } else if tag == 1 {
        lemma_bytes_u32(rest);
    } else {
        lemma_parse_text_field(rest);
        let (t, n) = parse_text_field(rest).unwrap();
        assert(rest =~= rest.subrange(0, n));
    }
}

proof fn lemma_server_body(m: ServerMsg, tail: Seq<u8>)
    requires
        server_msg_fits(m),
    ensures
        parse_server_body(server_body_wire(m) + tail) == Some((m, server_body_wire(m).len() as int)),
{
    let b = server_body_wire(m) + tail;
    let rest = b.subrange(4, b.len() as int);
    match m {
        ServerMsg::AckRequest { packet, id } => {
            lemma_u32(0);
            lemma_u32(id);
            assert(b.subrange(0, 4) =~= le_u32(0));
            assert(rest =~= bytes_field(packet) + (le_u32(id) + tail));
            lemma_bytes_field(packet, le_u32(id) + tail);
            let n: int = 8 + packet.len() as int;
            assert(rest.subrange(n, n + 4) =~= le_u32(id));
        },
        ServerMsg::Ack { id } => {
            lemma_u32(1);
            lemma_u32(id);
            assert(b.subrange(0, 4) =~= le_u32(1));
            assert(rest.subrange(0, 4) =~= le_u32(id));
        },
        ServerMsg::ConnectChallenge { challenge } => {
            lemma_u32(2);
            assert(b.subrange(0, 4) =~= le_u32(2));
            assert(rest =~= text_field(challenge) + tail);
            lemma_text_field(challenge, tail);
        },
        ServerMsg::Welcome => {
            lemma_u32(3);
            assert(b.subrange(0, 4) =~= le_u32(3));
        },
    }
}

/// Decoding the encoding of a server protocol packet gives the packet back.
pub proof fn lemma_server_round_trip(m: (ServerMsg, u16))
    requires
        server_msg_fits(m.0),
    ensures
        parse_server(server_wire(m)) == Some(m),
{
    let b = server_wire(m);
    let body = server_body_wire(m.0);
    lemma_u16(m.1);
    lemma_server_body(m.0, le_u16(m.1));
    assert(b.subrange(body.len() as int, body.len() + 2int) =~= le_u16(m.1));
}

/// Bytes that decode as a server protocol packet are exactly that packet's
/// encoding: nothing trails it and no other bytes give the same packet.
pub proof fn lemma_server_decode_exact(b: Seq<u8>)
    requires
        parse_server(b) is Some,
    ensures
        server_msg_fits(parse_server(b).unwrap().0),
        server_wire(parse_server(b).unwrap()) == b,
{
    let tag = u32_of(b.subrange(0, 4));
    let rest = b.subrange(4, b.len() as int);
    let (m, k) = parse_server_body(b).unwrap();
    lemma_bytes_u32(b.subrange(0, 4));
    lemma_bytes_u16(b.subrange(k, k + 2));
    assert(b =~= b.subrange(0, k) + b.subrange(k, k + 2));
    if tag == 0 {
        lemma_parse_bytes_field(rest);
        let (f, n) = parse_bytes_field(rest).unwrap();
        lemma_bytes_u32(rest.subrange(n, n + 4));
        assert(b.subrange(0, k) =~= le_u32(tag) + rest.subrange(0, n) + rest.subrange(n, n + 4));
    } else if tag == 1 {
        lemma_bytes_u32(rest.subrange(0, 4));
        assert(b.subrange(0, k) =~= le_u32(tag) + rest.subrange(0, 4));
    } else if tag == 2 {
        lemma_parse_text_field(rest);
        let (t, n) = parse_text_field(rest).unwrap();
        assert(b.subrange(0, k) =~= le_u32(tag) + rest.subrange(0, n));
    } else {
        assert(b.subrange(0, k) =~= le_u32(tag));
    }
}

} // verus!
