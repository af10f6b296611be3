//! How a Quick Share connection is set up: a request, the handshake, and a
//! response from each side.

use crate::bytes::{get_le, le_value};
use crate::crypto::random_bytes;
use crate::error::{Error, ErrorView, Result};
use crate::quickshare::endpoint::{
    id_text, info_bytes, random_endpoint_id, read_info, visible_info, EndpointInfo, DEVICE_PHONE,
};
use crate::quickshare::proto::{merged_with, wire_to_i32, FieldValue, Message, Schema};
use crate::quickshare::secure::{fresh_channel, SecureChannel};
use crate::quickshare::session::{decode_frame, frame_bytes};
use crate::quickshare::ukey2::{
    both_sides_agree, client_finished, pin_text, read_client_init, server_finished, ClientHandshake,
    ServerHandshake, SharedSecrets,
};
use crate::quickshare::wire::conn;
use crate::text::opt_view;
use vstd::prelude::*;
use vstd::slice::slice_to_vec;

verus! {

/// What the peer's first frame says it is called.
pub open spec fn requested_name(frame: conn::OfflineFrameView) -> Seq<char> {
    let request = match frame.v1 {
        Some(v1) => v1.connection_request,
        None => None,
    };
    match request {
        None => "Android"@,
        Some(request) => match described_name(request.endpoint_info) {
            Some(name) => name,
            None => match request.endpoint_name {
                Some(name) => if name.len() > 0 {
                    name
                } else {
                    "Android"@
                },
                None => "Android"@,
            },
        },
    }
}

/// The name in a device's description of itself.
pub open spec fn described_name(info: Option<Seq<u8>>) -> Option<Seq<char>> {
    match info {
        Some(bytes) => match read_info(bytes) {
            Ok(info) => info.name,
            Err(_) => None,
        },
        None => None,
    }
}

fn info_name(info: &Option<Vec<u8>>) -> (name: Option<String>)
    ensures
        opt_view(name) == described_name(opt_view(*info)),
{
    match info {
        Some(bytes) => match EndpointInfo::decode(bytes.as_slice()) {
            Ok(info) => info.name,
            Err(_) => None,
        },
        None => None,
    }
}

/// The name of the device that asks for a connection.
pub fn peer_name_from_request(frame: &conn::OfflineFrame) -> (name: String)
    ensures
        name@ == requested_name(frame@),
{
    let v1 = match &frame.v1 {
        Some(v1) => v1,
        None => return "Android".to_owned(),
    };
    let request = match &v1.connection_request {
        Some(request) => request,
        None => return "Android".to_owned(),
    };
    if let Some(name) = info_name(&request.endpoint_info) {
        return name;
    }
    match &request.endpoint_name {
        Some(name) => if name.as_str().is_empty() {
            "Android".to_owned()
        } else {
            name.clone()
        },
        None => "Android".to_owned(),
    }
}

/// The frame is a response, and not one that rejects.
pub open spec fn accepts(frame: conn::OfflineFrameView) -> bool {
    frame.v1 matches Some(v1) && v1.frame_type == Some(conn::CONNECTION_RESPONSE) && !(
    v1.connection_response matches Some(response) && response.response == Some(2i32))
}

pub fn connection_accepted(frame: &conn::OfflineFrame) -> (accepted: bool)
    ensures
        accepted == accepts(frame@),
{
    let v1 = match &frame.v1 {
        Some(v1) => v1,
        None => return false,
    };
    match v1.frame_type {
        Some(kind) if kind == conn::CONNECTION_RESPONSE => {},
        _ => return false,
    }
    match &v1.connection_response {
        Some(response) => match response.response {
            Some(status) => status != 2,
            None => true,
        },
        None => true,
    }
}

/// The frame that asks for a connection.
pub open spec fn request_frame(
    name: Seq<char>,
    endpoint_id: Seq<char>,
    nonce: i32,
    info: Seq<u8>,
) -> conn::OfflineFrameView {
    conn::frame_of(
        conn::CONNECTION_REQUEST,
        conn::V1FrameView {
            connection_request: Some(
                conn::ConnectionRequestFrameView {
                    endpoint_id: Some(endpoint_id),
                    endpoint_name: Some(name),
                    nonce: Some(nonce),
                    mediums: seq![conn::WIFI_LAN],
                    endpoint_info: Some(info),
                    keep_alive_interval_millis: Some(5_000),
                    keep_alive_timeout_millis: Some(30_000),
                },
            ),
            ..conn::V1Frame::blank()
        },
    )
}

pub fn connection_request(name: &str, endpoint_id: String, nonce: i32, info: Vec<u8>) -> (frame:
    conn::OfflineFrame)
    ensures
        frame@ == request_frame(name@, endpoint_id@, nonce, info@),
{
    let request = conn::ConnectionRequestFrame {
        endpoint_id: Some(endpoint_id),
        endpoint_name: Some(name.to_owned()),
        nonce: Some(nonce),
        mediums: vec![conn::WIFI_LAN],
        endpoint_info: Some(info),
        keep_alive_interval_millis: Some(5_000),
        keep_alive_timeout_millis: Some(30_000),
    };
    assert(request@.mediums =~= seq![conn::WIFI_LAN]);
    conn::OfflineFrame::new(
        conn::CONNECTION_REQUEST,
        conn::V1Frame { connection_request: Some(request), ..conn::V1Frame::empty() },
    )
}

/// How far a server has come.
pub enum ServerGreeting {
    /// Waits for a request.
    Request,
    /// Waits for the first message of the handshake.
    Init { peer: String },
    /// Waits for the last message of the handshake.
    Finish { peer: String, handshake: ServerHandshake },
    /// Waits for the client's response.
    Response { peer: String, secrets: SharedSecrets },
    /// The connection is up.
    Ready { peer: String, pin: String, channel: SecureChannel },
}

/// What the frame in `body` is.
pub open spec fn read_frame(body: Seq<u8>) -> Option<conn::OfflineFrameView> {
    merged_with::<conn::OfflineFrame>(conn::OfflineFrame::blank(), body)
}

pub open spec fn malformed_frame() -> ErrorView {
    ErrorView::Protocol("malformed message"@)
}

impl ServerGreeting {
    pub open spec fn wf(&self) -> bool {
        match *self {
            ServerGreeting::Finish { handshake, .. } => handshake.wf(),
            ServerGreeting::Ready { channel, .. } => channel.wf(),
            _ => true,
        }
    }

    /// Takes the next message, and gives the answer to it where there is one.
    pub fn on_body(self, body: &[u8]) -> (next: Result<(ServerGreeting, Option<Vec<u8>>)>)
        requires
            self.wf(),
        ensures
            next matches Ok((after, _)) ==> after.wf(),
            match self {
                ServerGreeting::Request => match read_frame(body@) {
                    None => next is Err && next->Err_0@ == malformed_frame(),
                    Some(frame) => next matches Ok((ServerGreeting::Init { peer }, None))
                        && peer@ == requested_name(frame),
                },
                ServerGreeting::Init { peer } => match read_client_init(body@) {
                    Err(error) => next is Err && next->Err_0@ == error,
                    Ok(_) => next matches Ok(
                        (ServerGreeting::Finish { peer: same, handshake }, Some(reply)),
                    ) && same == peer && handshake@.client_init == body@ && reply@
                        == handshake@.server_init,
                },
                ServerGreeting::Finish { peer, handshake } => match server_finished(
                    handshake@,
                    body@,
                ) {
                    Err(error) => next is Err && next->Err_0@ == error,
                    Ok(agreed) => next matches Ok(
                        (ServerGreeting::Response { peer: same, secrets }, Some(reply)),
                    ) && same == peer && secrets@ == agreed && reply@ == frame_bytes(
                        conn::connection_response_frame(),
                    ),
                },
                ServerGreeting::Response { peer, secrets } => match read_frame(body@) {
                    None => next is Err && next->Err_0@ == malformed_frame(),
                    Some(frame) => if !accepts(frame) {
                        next is Err && next->Err_0@ == ErrorView::Rejected(
                            "sender rejected the connection"@,
                        )
                    } else {
                        next matches Ok((ServerGreeting::Ready { peer: same, pin, channel }, None))
                            && same == peer && pin@ == pin_text(secrets@.auth_string) && channel@
                            == fresh_channel(secrets@.next_secret, false)
                    },
                },
                ServerGreeting::Ready { .. } => next is Err && next->Err_0@ == ErrorView::Protocol(
                    "the connection is up"@,
                ),
            },
    {
        match self {
            ServerGreeting::Request => {
                let frame: conn::OfflineFrame = decode_frame(body)?;
                let peer = peer_name_from_request(&frame);
                Ok((ServerGreeting::Init { peer }, None))
            },
            ServerGreeting::Init { peer } => {
                let handshake = ServerHandshake::start(body)?;
                let reply = slice_to_vec(handshake.server_init());
                Ok((ServerGreeting::Finish { peer, handshake }, Some(reply)))
            },
            ServerGreeting::Finish { peer, handshake } => {
                let secrets = handshake.finish(body)?;
                let reply = conn::OfflineFrame::connection_response().encode_to_vec();
                Ok((ServerGreeting::Response { peer, secrets }, Some(reply)))
            },
            ServerGreeting::Response { peer, secrets } => {
                let frame: conn::OfflineFrame = decode_frame(body)?;
                if !connection_accepted(&frame) {
                    return Err(Error::Rejected("sender rejected the connection".to_owned()));
                }
                let channel = secrets.server_channel()?;
                Ok((ServerGreeting::Ready { peer, pin: secrets.pin(), channel }, None))
            },
            ServerGreeting::Ready { .. } => Err(Error::protocol("the connection is up")),
        }
    }
}

/// How far a client has come.
pub enum ClientGreeting {
    /// Waits for the server's part of the handshake.
    Init { handshake: ClientHandshake },
    /// Waits for the server's response.
    Response { secrets: SharedSecrets },
    /// The connection is up.
    Ready { pin: String, channel: SecureChannel },
}

/// The request under an id, a nonce and identity bytes that were drawn.
pub open spec fn drawn_request(name: Seq<char>, raw: Seq<u8>, nonce: i32, identity: Seq<u8>) -> conn::OfflineFrameView {
    request_frame(
        name,
        id_text(raw),
        nonce,
        info_bytes(visible_info(name, DEVICE_PHONE, identity))->Ok_0,
    )
}

/// The first message of a client is a request that names it.
pub open spec fn is_request(bytes: Seq<u8>, name: Seq<char>) -> bool {
    exists|raw: Seq<u8>, nonce: i32, identity: Seq<u8>|
        raw.len() == 4 && identity.len() == 16 && bytes == frame_bytes(
            #[trigger] drawn_request(name, raw, nonce, identity),
        )
}

impl ClientGreeting {
    pub open spec fn wf(&self) -> bool {
        match *self {
            ClientGreeting::Init { handshake } => handshake.wf(),
            ClientGreeting::Response { .. } => true,
            ClientGreeting::Ready { channel, .. } => channel.wf(),
        }
    }

    /// Starts a connection: gives the request and the first message of the
    /// handshake.
    pub fn start(name: &str) -> (started: Result<(ClientGreeting, Vec<u8>, Vec<u8>)>)
        ensures
            started matches Ok((ClientGreeting::Init { handshake }, request, init))
                && handshake.wf() && init@ == handshake@.client_init && is_request(
                request@,
                name@,
            ),
    {
        let endpoint_id = random_endpoint_id();
        let visible = EndpointInfo::visible(name, DEVICE_PHONE);
        let ghost raw = choose|raw: Seq<u8>|
            raw.len() == 4 && endpoint_id@ == #[trigger] id_text(raw);
        let ghost identity = choose|identity: Seq<u8>|
            identity.len() == 16 && visible@ == #[trigger] visible_info(
                name@,
                DEVICE_PHONE,
                identity,
            );
        let info = visible.encode()?;
        let drawn = random_bytes(4);
        let nonce = nonce_of(drawn.as_slice());
        let frame = connection_request(name, endpoint_id, nonce, info);
        let request = frame.encode_to_vec();
        assert(request@ == frame_bytes(drawn_request(name@, raw, nonce, identity)));
        let handshake = ClientHandshake::start()?;
        let init = slice_to_vec(handshake.client_init());
        Ok((ClientGreeting::Init { handshake }, request, init))
    }

    /// Takes the next message, and gives the answer to it where there is one.
    pub fn on_body(self, body: &[u8]) -> (next: Result<(ClientGreeting, Vec<u8>)>)
        requires
            self.wf(),
        ensures
            next matches Ok((after, _)) ==> after.wf(),
            match self {
                ClientGreeting::Init { handshake } => match client_finished(handshake@, body@) {
                    Err(error) => next is Err && next->Err_0@ == error,
                    Ok(agreed) => next matches Ok((ClientGreeting::Response { secrets }, reply))
                        && secrets@ == agreed && reply@ == handshake@.client_finish,
                },
                ClientGreeting::Response { secrets } => match read_frame(body@) {
                    None => next is Err && next->Err_0@ == malformed_frame(),
                    Some(frame) => if !accepts(frame) {
                        next is Err && next->Err_0@ == ErrorView::Rejected(
                            "receiver rejected the connection"@,
                        )
                    } else {
                        next matches Ok((ClientGreeting::Ready { pin, channel }, reply)) && pin@
                            == pin_text(secrets@.auth_string) && channel@ == fresh_channel(
                            secrets@.next_secret,
                            true,
                        ) && reply@ == frame_bytes(conn::connection_response_frame())
                    },
                },
                ClientGreeting::Ready { .. } => next is Err && next->Err_0@ == ErrorView::Protocol(
                    "the connection is up"@,
                ),
            },
    {
        match self {
            ClientGreeting::Init { handshake } => {
                let reply = slice_to_vec(handshake.client_finish());
                let secrets = handshake.finish(body)?;
                Ok((ClientGreeting::Response { secrets }, reply))
            },
            ClientGreeting::Response { secrets } => {
                let frame: conn::OfflineFrame = decode_frame(body)?;
                if !connection_accepted(&frame) {
                    return Err(Error::Rejected("receiver rejected the connection".to_owned()));
                }
                let reply = conn::OfflineFrame::connection_response().encode_to_vec();
                let channel = secrets.client_channel()?;
                Ok((ClientGreeting::Ready { pin: secrets.pin(), channel }, reply))
            },
            ClientGreeting::Ready { .. } => Err(Error::protocol("the connection is up")),
        }
    }
}

fn nonce_of(bytes: &[u8]) -> (nonce: i32)
    requires
        bytes@.len() == 4,
    ensures
        nonce == wire_to_i32(le_value(bytes@) as u64),
{
    let wire: u64 = get_le(bytes);
    match FieldValue::Varint(wire).as_i32() {
        Ok(nonce) => nonce,
        Err(_) => 0,
    }
}

/// A client and the server that answered it show the same pin, and what either
/// seals the other opens.
pub proof fn greeted_sides_match(client: ClientHandshake, server: ServerHandshake)
    requires
        client.wf(),
        server.wf(),
        server@.client_init == client@.client_init,
    ensures
        client_finished(client@, server@.server_init) matches Ok(ours) && server_finished(
            server@,
            client@.client_finish,
        ) matches Ok(theirs) && {
            let here = fresh_channel(ours.next_secret, true);
            let there = fresh_channel(theirs.next_secret, false);
            &&& pin_text(ours.auth_string) == pin_text(theirs.auth_string)
            &&& here.encode == there.decode && here.encode_seq == there.decode_seq
            &&& there.encode == here.decode && there.encode_seq == here.decode_seq
        },
{
    both_sides_agree(client, server);
}

} // verus!
