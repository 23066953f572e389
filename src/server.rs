//! The server's connection registry: which clients hold a reliable
//! connection, which challenge each still has to present, and which
//! unreliable peer address each is bound to; and the routing of what arrives
//! over the unreliable transport.
use vstd::prelude::*;

use crate::datagram::{check_datagram, SendError, MAX_DATAGRAM_LEN};
use crate::protocol::{
    AckId, ClientId, ClientMsg, ClientProtocolPacket, ServerMsg, ServerProtocolPacketInner,
    parse_client, server_wire,
};

verus! {

/// How deep acknowledgement requests may nest inside one another.
pub const MAX_NESTING: u32 = 4;

/// The network address of an unreliable peer: an IPv6 address (IPv4 ones
/// mapped into it) and a port.
#[derive(Clone, Copy, Debug, PartialEq, Eq, Hash, Structural)]
pub struct PeerAddr {
    pub ip: u128,
    pub port: u16,
}

/// One client with a reliable connection.
struct ClientRecord {
    id: ClientId,
    challenge: Option<String>,
    addr: Option<PeerAddr>,
}

/// What the registry knows of one client: its id, the challenge it has yet
/// to present (while pending) and the address it is bound to (once bound).
pub struct ClientView {
    pub id: ClientId,
    pub challenge: Option<Seq<char>>,
    pub addr: Option<PeerAddr>,
}

impl View for ClientRecord {
    type V = ClientView;

    closed spec fn view(&self) -> ClientView {
        ClientView {
            id: self.id,
            challenge: match self.challenge {
                Some(c) => Some(c@),
                None => None,
            },
            addr: self.addr,
        }
    }
}

/// The registry's state: the next client id to give out, and the clients in
/// the order they connected.
pub struct RegistryView {
    pub next: u32,
    pub clients: Seq<ClientView>,
}

pub struct Registry {
    next_client_id: u32,
    clients: Vec<ClientRecord>,
}

impl View for Registry {
    type V = RegistryView;

    closed spec fn view(&self) -> RegistryView {
        RegistryView {
            next: self.next_client_id,
            clients: self.clients@.map_values(|r: ClientRecord| r@),
        }
    }
}

pub open spec fn has_id(v: RegistryView, id: ClientId, i: int) -> bool {
    0 <= i < v.clients.len() && v.clients[i].id == id
}

pub open spec fn has_addr(v: RegistryView, addr: PeerAddr, i: int) -> bool {
    0 <= i < v.clients.len() && v.clients[i].addr == Some(addr)
}

pub open spec fn has_challenge(v: RegistryView, c: Seq<char>, i: int) -> bool {
    0 <= i < v.clients.len() && v.clients[i].challenge == Some(c)
}

/// Ids rise in the order clients connected and stay below the next id; each
/// client is either pending, with a challenge, or bound, with an address; an
/// address is bound to at most one client and a challenge is pending for at
/// most one.
pub open spec fn registry_wf(v: RegistryView) -> bool {
    &&& forall|i: int, j: int| 0 <= i < j < v.clients.len() ==> v.clients[i].id.0 < v.clients[j].id.0
    &&& forall|i: int| 0 <= i < v.clients.len() ==> v.clients[i].id.0 < v.next
    &&& forall|i: int|
        0 <= i < v.clients.len() ==> (v.clients[i].challenge is Some) != (v.clients[i].addr is Some)
    &&& forall|i: int, j: int|
        0 <= i < v.clients.len() && 0 <= j < v.clients.len() && i != j && v.clients[i].addr is Some
            ==> v.clients[i].addr != v.clients[j].addr
    &&& forall|i: int, j: int|
        0 <= i < v.clients.len() && 0 <= j < v.clients.len() && i != j
            && v.clients[i].challenge is Some ==> v.clients[i].challenge != v.clients[j].challenge
}

/// Whether `id` holds a reliable connection.
pub open spec fn is_registered(v: RegistryView, id: ClientId) -> bool {
    exists|i: int| has_id(v, id, i)
}

/// The client bound to `addr`, if any.
pub open spec fn bound_to(v: RegistryView, addr: PeerAddr) -> Option<ClientId> {
    if exists|i: int| has_addr(v, addr, i) {
        Some(v.clients[choose|i: int| has_addr(v, addr, i)].id)
    } else {
        None
    }
}

/// The client that presenting challenge `c` from `addr` binds: the one for
/// which `c` is pending, provided `addr` is not bound yet.
pub open spec fn bind_result(v: RegistryView, c: Seq<char>, addr: PeerAddr) -> Option<ClientId> {
    if bound_to(v, addr) is None && exists|i: int| has_challenge(v, c, i) {
        Some(v.clients[choose|i: int| has_challenge(v, c, i)].id)
    } else {
        None
    }
}

/// The registry after challenge `c` is presented from `addr`: where it binds
/// a client, that client's challenge is spent and `addr` is bound to it.
pub open spec fn after_bind(v: RegistryView, c: Seq<char>, addr: PeerAddr) -> RegistryView {
    if bind_result(v, c, addr) is Some {
        let i = choose|i: int| has_challenge(v, c, i);
        RegistryView {
            clients: v.clients.update(
                i,
                ClientView { id: v.clients[i].id, challenge: None, addr: Some(addr) },
            ),
            ..v
        }
    } else {
        v
    }
}

/// Whether a new connection with challenge `c` is taken: ids are left and no
/// pending client has the same challenge.
pub open spec fn register_ok(v: RegistryView, c: Seq<char>) -> bool {
    v.next < u32::MAX && !exists|i: int| has_challenge(v, c, i)
}

/// The registry after a new connection with challenge `c`.
pub open spec fn after_register(v: RegistryView, c: Seq<char>) -> RegistryView {
    if register_ok(v, c) {
        RegistryView {
            next: (v.next + 1) as u32,
            clients: v.clients.push(ClientView { id: ClientId(v.next), challenge: Some(c), addr: None }),
        }
    } else {
        v
    }
}

/// The registry after the reliable connection of `id` closed: nothing of
/// that client is left.
pub open spec fn after_unregister(v: RegistryView, id: ClientId) -> RegistryView {
    if is_registered(v, id) {
        RegistryView { clients: v.clients.remove(choose|i: int| has_id(v, id, i)), ..v }
    } else {
        v
    }
}

/// The `Welcome` packet, as sent to a client once it is bound.
pub open spec fn welcome_wire() -> Seq<u8> {
    server_wire((ServerMsg::Welcome, 0))
}

/// The `Ack` packet for `id`, as the server sends it.
pub open spec fn server_ack_wire(id: u32) -> Seq<u8> {
    server_wire((ServerMsg::Ack { id }, 0))
}

/// What the server is to do with bytes that came over the unreliable
/// transport.
pub enum ServerAction<U> {
    /// Hand an application packet from `client` to the application.
    Deliver { client: ClientId, packet: U },
    /// `client` is now bound: send it `reply` (a `Welcome`) over its
    /// reliable connection.
    Welcome { client: ClientId, reply: Vec<u8> },
    /// `client` acknowledged message `id`.
    Acked { client: ClientId, id: AckId },
    /// Process `inner` as if it had arrived from the same address, at
    /// nesting `depth`, then send `ack` back to that address.
    Reprocess { inner: Vec<u8>, depth: u32, ack: Vec<u8> },
    /// Nothing to do: the bytes are dropped.
    Ignore,
}

/// The bytes of the `Welcome` packet.
pub fn welcome_bytes() -> (r: Vec<u8>)
    ensures
        r@ == welcome_wire(),
{
    ServerProtocolPacketInner::Welcome {  }.into_packet().encode()
}

/// The bytes of the `ConnectChallenge` packet that carries `challenge`.
pub fn challenge_bytes(challenge: &String) -> (r: Vec<u8>)
    ensures
        r@ == server_wire((ServerMsg::ConnectChallenge { challenge: challenge@ }, 0)),
{
    ServerProtocolPacketInner::ConnectChallenge { challenge: challenge.clone() }.into_packet().encode()
}

/// The bytes of the server's `Ack` packet for `id`.
pub fn ack_bytes(id: AckId) -> (r: Vec<u8>)
    ensures
        r@ == server_ack_wire(id.0),
{
    ServerProtocolPacketInner::Ack { id }.into_packet().encode()
}

proof fn lemma_wf_register(v: RegistryView, c: Seq<char>)
    requires
        registry_wf(v),
        register_ok(v, c),
    ensures
        registry_wf(after_register(v, c)),
{
    let w = after_register(v, c);
    let n = v.clients.len() as int;
    assert forall|i: int, j: int|
        0 <= i < w.clients.len() && 0 <= j < w.clients.len() && i != j
            && w.clients[i].challenge is Some implies w.clients[i].challenge
        != w.clients[j].challenge by {
        if i == n {
            assert(!has_challenge(v, c, j));
        } else if j == n {
            assert(!has_challenge(v, c, i));
        }
    }
}

proof fn lemma_wf_bind(v: RegistryView, c: Seq<char>, addr: PeerAddr)
    requires
        registry_wf(v),
    ensures
        registry_wf(after_bind(v, c, addr)),
{
    if bind_result(v, c, addr) is Some {
        let w = after_bind(v, c, addr);
        let k = choose|i: int| has_challenge(v, c, i);
        assert forall|i: int, j: int|
            0 <= i < w.clients.len() && 0 <= j < w.clients.len() && i != j
                && w.clients[i].addr is Some implies w.clients[i].addr != w.clients[j].addr by {
            if i == k {
                assert(!has_addr(v, addr, j));
            } else if j == k {
                assert(!has_addr(v, addr, i));
            }
        }
    }
}

impl Registry {
    pub fn new() -> (r: Registry)
        ensures
            r@.next == 1,
            r@.clients.len() == 0,
            registry_wf(r@),
    {
        Registry { next_client_id: 1, clients: Vec::new() }
    }

    proof fn lemma_view_index(&self, i: int)
        requires
            0 <= i < self.clients@.len(),
        ensures
            self@.clients[i] == self.clients@[i]@,
            self@.clients.len() == self.clients@.len(),
    {
    }

    /// The position of the client bound to `addr`.
    fn find_addr(&self, addr: PeerAddr) -> (r: Option<usize>)
        ensures
            match r {
                Some(i) => has_addr(self@, addr, i as int),
                None => forall|i: int| !has_addr(self@, addr, i),
            },
    {
        let mut i: usize = 0;
        while i < self.clients.len()
            invariant
                i <= self.clients@.len(),
                self@.clients.len() == self.clients@.len(),
                forall|j: int| 0 <= j < i ==> !has_addr(self@, addr, j),
            decreases self.clients@.len() - i,
        {
            proof {
                self.lemma_view_index(i as int);
            }
            if self.clients[i].addr == Some(addr) {
                return Some(i);
            }
            i = i + 1;
        }
        None
    }

    /// The position of the client for which `challenge` is pending.
    fn find_challenge(&self, challenge: &String) -> (r: Option<usize>)
        ensures
            match r {
                Some(i) => has_challenge(self@, challenge@, i as int),
                None => forall|i: int| !has_challenge(self@, challenge@, i),
            },
    {
        let mut i: usize = 0;
        while i < self.clients.len()
            invariant
                i <= self.clients@.len(),
                self@.clients.len() == self.clients@.len(),
                forall|j: int| 0 <= j < i ==> !has_challenge(self@, challenge@, j),
            decreases self.clients@.len() - i,
        {
            proof {
                self.lemma_view_index(i as int);
            }
            let rec = &self.clients[i];
            assert(self@.clients[i as int] == rec@);
            match &rec.challenge {
                Some(c) => {
                    assert(rec@.challenge == Some(c@));
                    if *c == *challenge {
                        return Some(i);
                    }
                },
                None => {
                    assert(rec@.challenge is None);
                },
            }
            i = i + 1;
        }
        None
    }

    /// The position of client `id`.
    fn find_id(&self, id: ClientId) -> (r: Option<usize>)
        ensures
            match r {
                Some(i) => has_id(self@, id, i as int),
                None => !is_registered(self@, id),
            },
    {
        let mut i: usize = 0;
        while i < self.clients.len()
            invariant
                i <= self.clients@.len(),
                self@.clients.len() == self.clients@.len(),
                forall|j: int| 0 <= j < i ==> !has_id(self@, id, j),
            decreases self.clients@.len() - i,
        {
            proof {
                self.lemma_view_index(i as int);
            }
            if self.clients[i].id.0 == id.0 {
                return Some(i);
            }
            i = i + 1;
        }
        None
    }

    /// The client bound to `addr`, if any.
    pub fn client_id(&self, addr: PeerAddr) -> (r: Option<ClientId>)
        requires
            registry_wf(self@),
        ensures
            r == bound_to(self@, addr),
    {
        match self.find_addr(addr) {
            Some(i) => {
                let ghost j = choose|j: int| has_addr(self@, addr, j);
                proof {
                    self.lemma_view_index(i as int);
                    assert(j == i);
                }
                Some(self.clients[i].id)
            },
            None => None,
        }
    }

    /// Whether `id` holds a reliable connection, so that sends to it can be
    /// routed.
    pub fn is_connected(&self, id: ClientId) -> (r: bool)
        ensures
            r == is_registered(self@, id),
    {
        self.find_id(id).is_some()
    }

    /// Takes a new reliable connection whose challenge is `challenge`: gives
    /// it the next client id and keeps the challenge until it is presented.
    /// `None` where the ids are used up or the challenge is already pending
    /// for another client.
    pub fn register_client(&mut self, challenge: String) -> (r: Option<ClientId>)
        requires
            registry_wf(old(self)@),
        ensures
            registry_wf(final(self)@),
            final(self)@ == after_register(old(self)@, challenge@),
            r is Some <==> register_ok(old(self)@, challenge@),
            r is Some ==> r == Some(ClientId(old(self)@.next)),
    {
        if self.next_client_id == u32::MAX {
            return None;
        }
        if self.find_challenge(&challenge).is_some() {
            return None;
        }
        let id = ClientId::new(self.next_client_id);
        self.next_client_id = self.next_client_id + 1;
        let ghost c = challenge@;
        self.clients.push(ClientRecord { id, challenge: Some(challenge), addr: None });
        proof {
            let v = old(self)@;
            let w = self@;
            assert(w.clients =~= v.clients.push(
                ClientView { id: ClientId(v.next), challenge: Some(c), addr: None },
            ));
            lemma_wf_register(v, c);
        }
        Some(id)
    }

    /// Binds `addr` to the client for which `challenge` is pending and spends
    /// the challenge. Ignored (`None`, nothing changes) where `addr` is bound
    /// already or no client has that challenge pending.
    pub fn register_unreliable_client(&mut self, challenge: &String, addr: PeerAddr) -> (r: Option<
        ClientId,
    >)
        requires
            registry_wf(old(self)@),
        ensures
            registry_wf(final(self)@),
            final(self)@ == after_bind(old(self)@, challenge@, addr),
            r == bind_result(old(self)@, challenge@, addr),
    {
        if self.find_addr(addr).is_some() {
            return None;
        }
        let i = match self.find_challenge(challenge) {
            Some(i) => i,
            None => return None,
        };
        let ghost j = choose|j: int| has_challenge(old(self)@, challenge@, j);
        proof {
            self.lemma_view_index(i as int);
            self.lemma_view_index(j);
            assert(j == i);
        }
        let id = self.clients[i].id;
        self.clients.set(i, ClientRecord { id, challenge: None, addr: Some(addr) });
        proof {
            let v = old(self)@;
            assert(self@.clients =~= v.clients.update(
                i as int,
                ClientView { id: v.clients[i as int].id, challenge: None, addr: Some(addr) },
            ));
            lemma_wf_bind(v, challenge@, addr);
        }
        Some(id)
    }

    /// Forgets client `id` once its reliable connection closed: its pending
    /// challenge or bound address goes with it.
    pub fn unregister_client(&mut self, id: ClientId)
        requires
            registry_wf(old(self)@),
        ensures
            registry_wf(final(self)@),
            final(self)@ == after_unregister(old(self)@, id),
    {
        let i = match self.find_id(id) {
            Some(i) => i,
            None => return ,
        };
        let ghost j = choose|j: int| has_id(old(self)@, id, j);
        proof {
            self.lemma_view_index(i as int);
            self.lemma_view_index(j);
            assert(j == i);
        }
        let _ = self.clients.remove(i);
        proof {
            let v = old(self)@;
            assert(self@.clients =~= v.clients.remove(i as int));
        }
    }

    /// Decides what to do with `bytes` that arrived from `addr` over the
    /// unreliable transport. `user` is the bytes read as an application
    /// packet, where they read as one. From a bound address an application
    /// packet comes first, then a protocol packet; from an unbound address
    /// only a `Connect` is heard, which binds the address where its challenge
    /// is pending. `depth` counts how deep this lies inside acknowledgement
    /// requests.
    pub fn handle_unreliable<U>(
        &mut self,
        addr: PeerAddr,
        bytes: &[u8],
        user: Option<U>,
        depth: u32,
    ) -> (r: ServerAction<U>)
        requires
            registry_wf(old(self)@),
        ensures
            registry_wf(final(self)@),
            match bound_to(old(self)@, addr) {
                Some(c) => final(self)@ == old(self)@ && match user {
                    Some(u) => r == ServerAction::Deliver { client: c, packet: u },
                    None => match parse_client(bytes@) {
                        Some(ClientMsg::AckRequest { packet, id }) => if depth < MAX_NESTING {
                            r matches ServerAction::Reprocess { inner, depth: d, ack } && inner@
                                == packet && d == depth + 1 && ack@ == server_ack_wire(id)
                        } else {
                            r is Ignore
                        },
                        Some(ClientMsg::Ack { id }) => r == ServerAction::<U>::Acked {
                            client: c,
                            id: AckId(id),
                        },
                        _ => r is Ignore,
                    },
                },
                None => match parse_client(bytes@) {
                    Some(ClientMsg::Connect { challenge }) => final(self)@ == after_bind(
                        old(self)@,
                        challenge,
                        addr,
                    ) && match bind_result(old(self)@, challenge, addr) {
                        Some(c) => r matches ServerAction::Welcome { client, reply } && client == c
                            && reply@ == welcome_wire(),
                        None => r is Ignore,
                    },
                    _ => final(self)@ == old(self)@ && r is Ignore,
                },
            },
    {
        match self.client_id(addr) {
            Some(c) => {
                if let Some(u) = user {
                    return ServerAction::Deliver { client: c, packet: u };
                }
                match ClientProtocolPacket::decode(bytes) {
                    Some(ClientProtocolPacket::AckRequest { packet, id }) => {
                        if depth < MAX_NESTING {
                            ServerAction::Reprocess { inner: packet, depth: depth + 1, ack: ack_bytes(id) }
                        } else {
                            ServerAction::Ignore
                        }
                    },
                    Some(ClientProtocolPacket::Ack { id }) => ServerAction::Acked { client: c, id },
                    _ => ServerAction::Ignore,
                }
            },
            None => match ClientProtocolPacket::decode(bytes) {
                Some(ClientProtocolPacket::Connect { challenge }) => {
                    match self.register_unreliable_client(&challenge, addr) {
                        Some(client) => ServerAction::Welcome { client, reply: welcome_bytes() },
                        None => ServerAction::Ignore,
                    }
                },
                _ => ServerAction::Ignore,
            },
        }
    }

    /// The addresses that a broadcast of `payload` goes to: every bound
    /// address, in the order the clients connected. Refused before any send
    /// where the payload does not fit the unreliable transport.
    pub fn broadcast(&self, payload: &[u8]) -> (r: Result<Vec<PeerAddr>, SendError>)
        ensures
            payload@.len() <= MAX_DATAGRAM_LEN ==> r is Ok && r.unwrap()@ == bound_addrs(self@),
            payload@.len() > MAX_DATAGRAM_LEN ==> r == Err::<Vec<PeerAddr>, SendError>(
                SendError::TooLarge,
            ),
    {
        match check_datagram(payload) {
            Ok(()) => {},
            Err(e) => return Err(e),
        }
        let ghost f = |c: ClientView| c.addr;
        let mut out: Vec<PeerAddr> = Vec::new();
        let mut i: usize = 0;
        assert(self@.clients.subrange(0, 0).filter_map(f) =~= Seq::<PeerAddr>::empty());
        while i < self.clients.len()
            invariant
                i <= self.clients@.len(),
                self@.clients.len() == self.clients@.len(),
                out@ == self@.clients.subrange(0, i as int).filter_map(f),
                f == (|c: ClientView| c.addr),
            decreases self.clients@.len() - i,
        {
            proof {
                self.lemma_view_index(i as int);
                assert(self@.clients.subrange(0, i + 1).drop_last() =~= self@.clients.subrange(
                    0,
                    i as int,
                ));
            }
            if let Some(a) = self.clients[i].addr {
                out.push(a);
            }
            i = i + 1;
        }
        assert(self@.clients.subrange(0, i as int) =~= self@.clients);
        Ok(out)
    }

}


/// Every bound address, in the order the clients connected.
pub open spec fn bound_addrs(v: RegistryView) -> Seq<PeerAddr> {
    v.clients.filter_map(|c: ClientView| c.addr)
}

// ---- laws -----------------------------------------------------------------

/// A challenge is spent by its first use: presented from two unbound
/// addresses in turn, it binds the first and the second is ignored, leaving
/// the registry as the first left it.
pub proof fn lemma_challenge_single_use(v: RegistryView, c: Seq<char>, a1: PeerAddr, a2: PeerAddr)
    requires
        registry_wf(v),
        exists|i: int| has_challenge(v, c, i),
        bound_to(v, a1) is None,
        bound_to(v, a2) is None,
        a1 != a2,
    ensures
        bind_result(v, c, a1) is Some,
        bound_to(after_bind(v, c, a1), a1) == bind_result(v, c, a1),
        bind_result(after_bind(v, c, a1), c, a2) is None,
        after_bind(after_bind(v, c, a1), c, a2) == after_bind(v, c, a1),
        bound_to(after_bind(v, c, a1), a2) is None,
{
    let k = choose|i: int| has_challenge(v, c, i);
    let w = after_bind(v, c, a1);
    assert(has_addr(w, a1, k));
    let j = choose|j: int| has_addr(w, a1, j);
    if j != k {
        assert(has_addr(v, a1, j));
    }
    assert(!exists|i: int| has_challenge(w, c, i)) by {
        if exists|i: int| has_challenge(w, c, i) {
            let i = choose|i: int| has_challenge(w, c, i);
            assert(i != k);
            assert(has_challenge(v, c, i));
        }
    }
    assert(!exists|i: int| has_addr(w, a2, i)) by {
        if exists|i: int| has_addr(w, a2, i) {
            let i = choose|i: int| has_addr(w, a2, i);
            assert(i != k);
            assert(has_addr(v, a2, i));
        }
    }
}

/// Once a client's reliable connection closes, nothing of it is left: its id
/// is no longer registered and its former address is unbound again, so
/// traffic from there must start a new handshake.
pub proof fn lemma_disconnect_cleanup(v: RegistryView, id: ClientId, addr: PeerAddr)
    requires
        registry_wf(v),
        bound_to(v, addr) == Some(id),
    ensures
        !is_registered(after_unregister(v, id), id),
        bound_to(after_unregister(v, id), addr) is None,
{
    let k = choose|i: int| has_addr(v, addr, i);
    assert(has_id(v, id, k));
    let m = choose|i: int| has_id(v, id, i);
    assert(m == k);
    let w = after_unregister(v, id);
    assert forall|i: int| !has_id(w, id, i) by {
        if has_id(w, id, i) {
            if i < k {
                assert(has_id(v, id, i));
            } else {
                assert(has_id(v, id, i + 1));
            }
        }
    }
    assert forall|i: int| !has_addr(w, addr, i) by {
        if has_addr(w, addr, i) {
            if i < k {
                assert(has_addr(v, addr, i));
            } else {
                assert(has_addr(v, addr, i + 1));
            }
        }
    }
}

} // verus!
