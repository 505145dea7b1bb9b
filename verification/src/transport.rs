//! What each transport puts on the wire and where it connects; the WebSocket
//! upgrade request and the test of its reply.

use crate::text::{decimal, push_decimal};
use crate::websocket::{create_ping_frame, frame_bytes, ping_message, OPCODE_TEXT};
use vstd::prelude::*;
use vstd::string::*;

verus! {

/// The connection types a benchmark can run over.
#[derive(Debug, Clone, Copy, PartialEq, Eq, Structural)]
pub enum TransportKind {
    /// WebSocket over TLS: pings travel as masked text frames.
    TlsWebSocket,
    /// A plain TCP stream: pings travel as raw bytes.
    PlainTcp,
    /// UDP datagrams to a port of their own: pings travel as raw bytes.
    Udp,
}

/// How far the UDP port lies above the configured port.
pub const UDP_PORT_OFFSET: u16 = 2;

/// The line feed that ends a line of an HTTP response.
pub const LINE_FEED: u8 = 0x0A;

/// The remote port of a transport, or `None` where it is above 65535.
pub open spec fn remote_port_of(kind: TransportKind, port: u16) -> Option<u16> {
    match kind {
        TransportKind::Udp => if port + UDP_PORT_OFFSET <= u16::MAX {
            Some((port + UDP_PORT_OFFSET) as u16)
        } else {
            None
        },
        _ => Some(port),
    }
}

/// Whether `bytes` can be the ping of a transport: over WebSocket a text
/// frame with the ping message under some masking key, else the message
/// itself.
pub open spec fn is_ping_payload(kind: TransportKind, bytes: Seq<u8>) -> bool {
    match kind {
        TransportKind::TlsWebSocket => exists|key: Seq<u8>|
            key.len() == 4 && bytes == #[trigger] frame_bytes(OPCODE_TEXT, ping_message(), key),
        _ => bytes == ping_message(),
    }
}

/// Whether a response counts as a completed round trip: over WebSocket every
/// response does, whatever it holds; over TCP and UDP an empty read does not.
pub open spec fn yields_sample(kind: TransportKind, response: Seq<u8>) -> bool {
    match kind {
        TransportKind::TlsWebSocket => true,
        _ => response.len() > 0,
    }
}

impl TransportKind {
    /// The port to reach the server on.
    pub fn remote_port(self, port: u16) -> (remote: Option<u16>)
        ensures
            remote == remote_port_of(self, port),
    {
        match self {
            TransportKind::Udp => port.checked_add(UDP_PORT_OFFSET),
            _ => Some(port),
        }
    }

    /// The bytes of one ping. Over WebSocket each call masks with a fresh key.
    pub fn ping_payload(self) -> (payload: Vec<u8>)
        ensures
            is_ping_payload(self, payload@),
    {
        match self {
            TransportKind::TlsWebSocket => create_ping_frame(),
            _ => {
                let mut payload: Vec<u8> = Vec::new();
                payload.push(0x50);
                payload.push(0x49);
                payload.push(0x4E);
                payload.push(0x47);
                assert(payload@ =~= ping_message());
                payload
            },
        }
    }

    /// Whether `response` counts as a completed round trip.
    pub fn counts_response(self, response: &[u8]) -> (counted: bool)
        ensures
            counted == yields_sample(self, response@),
    {
        match self {
            TransportKind::TlsWebSocket => true,
            _ => response.len() > 0,
        }
    }
}

/// The address of the benchmark endpoint: `wss://host:port/ws`.
pub open spec fn websocket_url_text(host: Seq<char>, port: u16) -> Seq<char> {
    "wss://"@ + host + ":"@ + decimal(port as nat) + "/ws"@
}

/// The address of the benchmark endpoint.
pub fn websocket_url(host: &str, port: u16) -> (url: String)
    ensures
        url@ == websocket_url_text(host@, port),
{
    let mut url = String::from_str("wss://");
    url.append(host);
    url.append(":");
    push_decimal(&mut url, port as u64);
    url.append("/ws");
    url
}

/// The upgrade request: a `GET` of `/ws` that names the host, asks for the
/// WebSocket protocol in version 13 and carries the key.
pub open spec fn handshake_request_text(host: Seq<char>, port: u16, key: Seq<char>) -> Seq<char> {
    "GET /ws HTTP/1.1\r\nHost: "@ + host + ":"@ + decimal(port as nat)
        + "\r\nUpgrade: websocket\r\nConnection: Upgrade\r\nSec-WebSocket-Key: "@ + key
        + "\r\nSec-WebSocket-Version: 13\r\n\r\n"@
}

/// The upgrade request to send once the connection is open.
pub fn handshake_request(host: &str, port: u16, key: &str) -> (request: String)
    ensures
        request@ == handshake_request_text(host@, port, key@),
{
    let mut request = String::from_str("GET /ws HTTP/1.1\r\nHost: ");
    request.append(host);
    request.append(":");
    push_decimal(&mut request, port as u64);
    request.append("\r\nUpgrade: websocket\r\nConnection: Upgrade\r\nSec-WebSocket-Key: ");
    request.append(key);
    request.append("\r\nSec-WebSocket-Version: 13\r\n\r\n");
    request
}

/// The status `101` stands at index `i`, within the first line.
pub open spec fn switching_at(response: Seq<u8>, i: int) -> bool {
    &&& 0 <= i && i + 3 <= response.len()
    &&& response[i] == 0x31 && response[i + 1] == 0x30 && response[i + 2] == 0x31
    &&& forall|j: int| 0 <= j < i ==> response[j] != LINE_FEED
}

/// The server switched protocols: the status line of the response, that is
/// its bytes up to the first line feed, contains `101`.
pub open spec fn handshake_accepts(response: Seq<u8>) -> bool {
    exists|i: int| switching_at(response, i)
}

/// Whether the reply to the upgrade request indicates the protocol switch.
pub fn handshake_accepted(response: &[u8]) -> (accepted: bool)
    ensures
        accepted == handshake_accepts(response@),
{
    let len: usize = response.len();
    let mut i: usize = 0;
    while i < len && len - i >= 3
        invariant
            i <= len,
            len == response@.len(),
            forall|j: int| 0 <= j < i ==> response@[j] != LINE_FEED,
            forall|k: int| 0 <= k < i ==> !switching_at(response@, k),
        decreases len - i,
    {
        if response[i] == LINE_FEED {
            assert forall|k: int| !switching_at(response@, k) by {
                if switching_at(response@, k) {
                    if k > i {
                        assert(response@[i as int] != LINE_FEED);
                    }
                }
            }
            return false;
        }
        if response[i] == 0x31 && response[i + 1] == 0x30 && response[i + 2] == 0x31 {
            assert(switching_at(response@, i as int));
            return true;
        }
        i = i + 1;
    }
    assert forall|k: int| !switching_at(response@, k) by {}
    false
}

} // verus!
