//! The connection coordinator: the single owner of the registry of live
//! connections, which turns each command into the bytes to write to one
//! connection and whether to shut that connection down.
use std::collections::HashMap;
use vstd::prelude::*;
use vstd::utf8::encode_utf8;
use crate::packet::{be_bytes, frame_bytes, serialize, Opcode, MAX_PAYLOAD_LEN};

verus! {

broadcast use vstd::std_specs::hash::group_hash_axioms;

/// A connection: the identifier that the caller gave its socket, and the
/// peer's IP address (an IPv4 address as its IPv6-mapped form).
#[derive(Clone, Copy, PartialEq, Eq, Structural, Debug)]
pub struct Conn {
    pub id: u64,
    pub ip: u128,
}

/// A request from a connection worker to the coordinator.
#[derive(Debug)]
pub enum Command {
    /// A connection was accepted.
    Connect(Conn),
    /// The upgrade request was valid; the token goes into the response.
    Handshake(Conn, String),
    /// The peer closed with a status code and an optional reason.
    Close(Conn, u16, Option<String>),
    /// The peer sent a text message, which is sent back.
    Echo(Conn, String),
}

/// What the coordinator does to one connection: write the bytes, then shut
/// the connection down in both directions if asked.
#[derive(Debug)]
pub struct Action {
    pub conn: u64,
    pub bytes: Vec<u8>,
    pub shutdown: bool,
}

/// An `Action` as mathematical values.
pub struct ActionView {
    pub conn: u64,
    pub bytes: Seq<u8>,
    pub shutdown: bool,
}

impl View for Action {
    type V = ActionView;

    open spec fn view(&self) -> ActionView {
        ActionView { conn: self.conn, bytes: self.bytes@, shutdown: self.shutdown }
    }
}

/// The response that completes the opening handshake.
pub open spec fn handshake_response(token: Seq<char>) -> Seq<char> {
    "HTTP/1.1 101 Switching Protocols\r\nUpgrade: websocket\r\nConnection: Upgrade\r\nSec-WebSocket-Accept: "@
        + token + "\r\n\r\n"@
}

/// The payload of a Close frame: the status code big-endian, then the
/// reason's UTF-8 bytes.
pub open spec fn close_payload(status_code: u16, reason: Option<Seq<char>>) -> Seq<u8> {
    be_bytes(status_code as nat, 2) + match reason {
        Some(r) => encode_utf8(r),
        None => Seq::empty(),
    }
}

/// The view of an optional string.
pub open spec fn opt_view(s: Option<String>) -> Option<Seq<char>> {
    match s {
        Some(t) => Some(t@),
        None => None,
    }
}

/// A payload of this length fits in one frame and in memory.
pub open spec fn fits(len: nat) -> bool {
    len <= MAX_PAYLOAD_LEN && len + 14 <= usize::MAX
}

/// The frame that a command asks to write fits.
pub open spec fn command_fits(cmd: Command) -> bool {
    match cmd {
        Command::Echo(_, text) => fits(encode_utf8(text@).len()),
        Command::Close(_, code, reason) => fits(close_payload(code, opt_view(reason)).len()),
        _ => true,
    }
}

/// The registry after a command: a Connect from an address that is not
/// registered adds it; a Close removes its address when the entry is this
/// connection's; the other commands leave it as it is.
pub open spec fn registry_after(reg: Map<u128, u64>, cmd: Command) -> Map<u128, u64> {
    match cmd {
        Command::Connect(c) => if reg.contains_key(c.ip) {
            reg
        } else {
            reg.insert(c.ip, c.id)
        },
        Command::Close(c, _, _) => if reg.contains_key(c.ip) && reg[c.ip] == c.id {
            reg.remove(c.ip)
        } else {
            reg
        },
        _ => reg,
    }
}

/// What the coordinator does for a command, given the registry before it.
pub open spec fn action_for(reg: Map<u128, u64>, cmd: Command) -> ActionView {
    match cmd {
        Command::Connect(c) => ActionView {
            conn: c.id,
            bytes: Seq::empty(),
            shutdown: reg.contains_key(c.ip),
        },
        Command::Handshake(c, token) => ActionView {
            conn: c.id,
            bytes: encode_utf8(handshake_response(token@)),
            shutdown: false,
        },
        Command::Echo(c, text) => ActionView {
            conn: c.id,
            bytes: frame_bytes(true, Opcode::Text, None, encode_utf8(text@)),
            shutdown: false,
        },
        Command::Close(c, code, reason) => ActionView {
            conn: c.id,
            bytes: frame_bytes(true, Opcode::Close, None, close_payload(code, opt_view(reason))),
            shutdown: true,
        },
    }
}

/// Builds the payload of a Close frame.
pub fn close_frame_payload(status_code: u16, reason: Option<String>) -> (r: Vec<u8>)
    ensures
        r@ == close_payload(status_code, opt_view(reason)),
{
    let mut buffer: Vec<u8> = Vec::with_capacity(2);
    crate::packet::push_be(&mut buffer, status_code as u64, 2);
    assert(buffer@ =~= be_bytes(status_code as nat, 2));
    match reason {
        Some(text) => {
            let mut bytes = text.as_str().as_bytes_vec();
            buffer.append(&mut bytes);
        },
        None => {
            assert(buffer@ =~= close_payload(status_code, None));
        },
    }
    buffer
}

/// Builds the handshake response for an accept token.
pub fn handshake_response_bytes(token: &String) -> (r: Vec<u8>)
    ensures
        r@ == encode_utf8(handshake_response(token@)),
{
    let mut text = String::from_str(
        "HTTP/1.1 101 Switching Protocols\r\nUpgrade: websocket\r\nConnection: Upgrade\r\nSec-WebSocket-Accept: ",
    );
    text.append(token.as_str());
    text.append("\r\n\r\n");
    text.as_str().as_bytes_vec()
}

/// The coordinator's state: the registry, from peer address to connection.
pub struct Coordinator {
    registry: HashMap<u128, u64>,
}

impl View for Coordinator {
    type V = Map<u128, u64>;

    closed spec fn view(&self) -> Map<u128, u64> {
        self.registry@
    }
}

impl Coordinator {
    /// A coordinator with no connection registered.
    pub fn new() -> (r: Coordinator)
        ensures
            r@ == Map::<u128, u64>::empty(),
    {
        Coordinator { registry: HashMap::new() }
    }

    /// The connection registered for an address, if any.
    pub fn registered(&self, ip: u128) -> (r: Option<u64>)
        ensures
            r == (if self@.contains_key(ip) {
                Some(self@[ip])
            } else {
                None::<u64>
            }),
    {
        match self.registry.get(&ip) {
            Some(id) => Some(*id),
            None => None,
        }
    }

    /// Handles one command: updates the registry and says what to write to
    /// which connection, and whether to shut it down.
    pub fn step(&mut self, cmd: Command) -> (r: Action)
        requires
            command_fits(cmd),
        ensures
            final(self)@ == registry_after(old(self)@, cmd),
            r@ == action_for(old(self)@, cmd),
    {
        match cmd {
            Command::Connect(c) => {
                if self.registry.contains_key(&c.ip) {
                    Action { conn: c.id, bytes: Vec::new(), shutdown: true }
                } else {
                    self.registry.insert(c.ip, c.id);
                    Action { conn: c.id, bytes: Vec::new(), shutdown: false }
                }
            },
            Command::Handshake(c, token) => {
                Action { conn: c.id, bytes: handshake_response_bytes(&token), shutdown: false }
            },
            Command::Echo(c, text) => {
                let bytes = serialize(Opcode::Text, None, text.as_str().as_bytes());
                Action { conn: c.id, bytes, shutdown: false }
            },
            Command::Close(c, code, reason) => {
                let payload = close_frame_payload(code, reason);
                let bytes = serialize(Opcode::Close, None, payload.as_slice());
                match self.registry.get(&c.ip) {
                    Some(id) => {
                        if *id == c.id {
                            self.registry.remove(&c.ip);
                        }
                    },
                    None => {},
                }
                Action { conn: c.id, bytes, shutdown: true }
            },
        }
    }
}

/// Two connections from one address, the first accepted while the address is
/// free: the first is registered; the second is shut down and never enters
/// the registry, and a Close from it leaves the first's entry in place.
pub proof fn lemma_duplicate_connect_rejected(
    reg: Map<u128, u64>,
    first: Conn,
    second: Conn,
    code: u16,
    reason: Option<String>,
)
    requires
        first.ip == second.ip,
        first.id != second.id,
        !reg.contains_key(first.ip),
        forall|k: u128| reg.contains_key(k) ==> reg[k] != second.id,
    ensures
        registry_after(reg, Command::Connect(first)) == reg.insert(first.ip, first.id),
        action_for(registry_after(reg, Command::Connect(first)), Command::Connect(second))
            == (ActionView { conn: second.id, bytes: Seq::empty(), shutdown: true }),
        registry_after(registry_after(reg, Command::Connect(first)), Command::Connect(second))
            == registry_after(reg, Command::Connect(first)),
        forall|k: u128|
            #![trigger registry_after(reg, Command::Connect(first))[k]]
            registry_after(reg, Command::Connect(first)).contains_key(k) ==> registry_after(
                reg,
                Command::Connect(first),
            )[k] != second.id,
        registry_after(
            registry_after(reg, Command::Connect(first)),
            Command::Close(second, code, reason),
        ) == registry_after(reg, Command::Connect(first)),
{
}

} // verus!
