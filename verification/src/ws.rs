//! The engine of the enveloped transport: what each received envelope means
//! on either side, and which envelope answers it. The channel itself — the
//! message socket, the dial, the target reads and writes — is the caller's
//! business; every decision is taken here.

use vstd::prelude::*;

use crate::envelope::{
    encode_ws_message, parse_ws_message, spec_ws_message_json, WsMessage, WsMessageView,
};
use crate::handshake::server_handshake;
use crate::messages::{
    HandshakeRequest, HandshakeRequestView, HandshakeResponse, HandshakeResponseView,
    ProxyRequestView, ProxyResponse, ProxyResponseView,
};
use crate::session::{fresh_uuid_string, SessionTable, SessionView};
use crate::ProxyError;

verus! {

/// Where a server-side envelope session stands after its handshake.
#[derive(Debug, Clone, PartialEq, Eq)]
pub enum WsServerPhase {
    /// No target connected yet.
    AwaitingRequest,
    /// A target is connected; data envelopes flow in lockstep.
    Relaying,
}

/// What the server must do with one envelope received after the handshake.
#[derive(Debug, Clone, PartialEq, Eq)]
pub enum WsServerStep {
    /// Dial this `host:port` target, then answer with the outcome.
    Dial(String),
    /// Write these bytes to the target, read once, and answer with what came
    /// back: target traffic drains only in lockstep with client envelopes.
    Forward(Vec<u8>),
    /// Tear the session down.
    Stop,
    /// Nothing to do for this envelope.
    Continue,
}

/// The server's answer to the first envelope of a connection: the reply to
/// send, and the fresh session identifier exactly when a handshake with the
/// right token came. A mismatched token is refused and recorded nowhere; a
/// malformed or out-of-place envelope gets an error reply.
pub fn ws_server_handshake_text(
    table: &mut SessionTable,
    expected_token: &str,
    text: &Vec<u8>,
    now: u64,
) -> (r: (Vec<u8>, Option<String>))
    requires
        old(table).wf(),
    ensures
        final(table).wf(),
        (forall|w: WsMessageView| text@ != spec_ws_message_json(w)) ==> (final(table)@ == old(
            table,
        )@ && r.1 is None && r.0@ == spec_ws_message_json(
            WsMessageView::Error("invalid handshake message"@),
        )),
        forall|w: WsMessageView|
            (text@ == #[trigger] spec_ws_message_json(w) && !(w is Handshake)) ==> (final(table)@ == old(
                table,
            )@ && r.1 is None && r.0@ == spec_ws_message_json(
                WsMessageView::Error("invalid handshake message"@),
            )),
        forall|hv: HandshakeRequestView|
            (text@ == spec_ws_message_json(WsMessageView::Handshake(hv)) && hv.token
                != expected_token@) ==> (final(table)@ == old(table)@ && r.1 is None && r.0@
                == spec_ws_message_json(
                WsMessageView::HandshakeResponse(
                    (HandshakeResponseView {
                        success: false,
                        message: "authentication failed: invalid token"@,
                        session_id: None,
                    }),
                ),
            )),
        forall|hv: HandshakeRequestView|
            (text@ == spec_ws_message_json(WsMessageView::Handshake(hv)) && hv.token
                == expected_token@) ==> (r.1 matches Some(sid) && final(table)@ == old(
                table,
            )@.insert(sid@, (SessionView { client_id: hv.client_id, connected_at: now })) && r.0@
                == spec_ws_message_json(
                WsMessageView::HandshakeResponse(
                    (HandshakeResponseView {
                        success: true,
                        message: "authentication succeeded"@,
                        session_id: Some(sid@),
                    }),
                ),
            )),
{
    match parse_ws_message(text) {
        Some(WsMessage::Handshake(req)) => {
            let fresh = fresh_uuid_string();
            let (resp, sid) = server_handshake(
                table,
                expected_token,
                &req,
                req.client_id.as_str(),
                fresh,
                now,
            );
            let reply = encode_ws_message(&WsMessage::HandshakeResponse(resp));
            (reply, sid)
        },
        _ => {
            let reply = encode_ws_message(
                &WsMessage::Error(
                    <String as vstd::string::StringExecFns>::from_str("invalid handshake message"),
                ),
            );
            (reply, None)
        },
    }
}

/// Decides on one text envelope received after the handshake: a proxy
/// request is dialed whatever came before; a data envelope is forwarded only
/// while a target is connected; an error envelope stops the session; any
/// other or malformed envelope is ignored.
pub fn ws_server_on_text(phase: &WsServerPhase, text: &Vec<u8>) -> (r: WsServerStep)
    ensures
        (forall|w: WsMessageView| text@ != spec_ws_message_json(w)) ==> r is Continue,
        forall|p: ProxyRequestView|
            text@ == spec_ws_message_json(WsMessageView::ProxyRequest(p)) ==> (r matches WsServerStep::Dial(t)
                && t@ == p.target_addr),
        forall|d: Seq<u8>|
            text@ == spec_ws_message_json(WsMessageView::Data(d)) ==> (match phase {
                WsServerPhase::Relaying => r matches WsServerStep::Forward(b) && b@ == d,
                WsServerPhase::AwaitingRequest => r is Continue,
            }),
        forall|e: Seq<char>|
            text@ == spec_ws_message_json(WsMessageView::Error(e)) ==> r is Stop,
        forall|w: WsMessageView|
            (text@ == #[trigger] spec_ws_message_json(w) && (w is Handshake
                || w is HandshakeResponse || w is ProxyResponse)) ==> r is Continue,
{
    match parse_ws_message(text) {
        Some(WsMessage::ProxyRequest(p)) => WsServerStep::Dial(p.target_addr),
        Some(WsMessage::Data(d)) => {
            match phase {
                WsServerPhase::Relaying => WsServerStep::Forward(d),
                WsServerPhase::AwaitingRequest => WsServerStep::Continue,
            }
        },
        Some(WsMessage::Error(_)) => WsServerStep::Stop,
        _ => WsServerStep::Continue,
    }
}

/// The envelope answering a dial, and whether the session survives it.
/// Success carries a fixed message and the relay begins; failure carries the
/// dial error's own words, and once that reply is out the connection is torn
/// down and its session entry removed.
pub fn ws_server_dial_reply(dial_error: Option<String>) -> (r: (Vec<u8>, bool))
    ensures
        r.1 == (dial_error is None),
        dial_error is None ==> r.0@ == spec_ws_message_json(
            WsMessageView::ProxyResponse(
                (ProxyResponseView { success: true, message: "connection succeeded"@ }),
            ),
        ),
        dial_error matches Some(cause) ==> r.0@ == spec_ws_message_json(
            WsMessageView::ProxyResponse((ProxyResponseView { success: false, message: cause@ })),
        ),
{
    match dial_error {
        None => {
            let resp = ProxyResponse {
                success: true,
                message: <String as vstd::string::StringExecFns>::from_str("connection succeeded"),
            };
            (encode_ws_message(&WsMessage::ProxyResponse(resp)), true)
        },
        Some(cause) => {
            let resp = ProxyResponse { success: false, message: cause };
            (encode_ws_message(&WsMessage::ProxyResponse(resp)), false)
        },
    }
}

/// The first envelope a client sends: its handshake, under the shared token
/// and a fresh connection identifier.
pub fn ws_client_handshake_text(token: &str, client_id: String) -> (r: Vec<u8>)
    ensures
        r@ == spec_ws_message_json(
            WsMessageView::Handshake(
                (HandshakeRequestView { token: token@, client_id: client_id@ }),
            ),
        ),
{
    let req = HandshakeRequest { token: token.to_owned(), client_id };
    encode_ws_message(&WsMessage::Handshake(req))
}

} // verus!

verus! {

/// The client's reading of the handshake reply envelope: acceptance yields
/// the session identifier (empty when the server sent none); refusal is an
/// authentication failure, and anything else is a protocol error.
pub fn ws_client_interpret_handshake_reply(text: &Vec<u8>) -> (r: Result<String, ProxyError>)
    ensures
        forall|hv: HandshakeResponseView|
            (text@ == spec_ws_message_json(WsMessageView::HandshakeResponse(hv)) && hv.success)
                ==> (r matches Ok(s) && (match hv.session_id {
                Some(x) => s@ == x,
                None => s@ == Seq::<char>::empty(),
            })),
        forall|hv: HandshakeResponseView|
            (text@ == spec_ws_message_json(WsMessageView::HandshakeResponse(hv)) && !hv.success)
                ==> (r matches Err(e) && e is AuthenticationError),
        (forall|w: WsMessageView| text@ != spec_ws_message_json(w)) ==> (r matches Err(e)
            && e is ProtocolError),
        forall|w: WsMessageView|
            (text@ == #[trigger] spec_ws_message_json(w) && !(w is HandshakeResponse)) ==> (r matches Err(e)
                && e is ProtocolError),
{
    match parse_ws_message(text) {
        Some(WsMessage::HandshakeResponse(resp)) => crate::handshake::interpret_handshake_response(
            &resp,
        ),
        _ => Err(ProxyError::ProtocolError),
    }
}

/// The client's reading of the proxy reply envelope: the relay starts
/// exactly on a proxy response that reports success; anything else counts as
/// a refusal.
pub fn ws_client_interpret_proxy_reply(text: &Vec<u8>) -> (r: bool)
    ensures
        forall|p: ProxyResponseView|
            text@ == spec_ws_message_json(WsMessageView::ProxyResponse(p)) ==> r == p.success,
        (forall|w: WsMessageView| text@ != spec_ws_message_json(w)) ==> !r,
        forall|w: WsMessageView|
            (text@ == #[trigger] spec_ws_message_json(w) && !(w is ProxyResponse)) ==> !r,
{
    match parse_ws_message(text) {
        Some(WsMessage::ProxyResponse(resp)) => resp.success,
        _ => false,
    }
}

/// What the client must do with one text envelope from the server: write a
/// data envelope's bytes to the local socket, stop on an error envelope,
/// ignore the rest.
#[derive(Debug, Clone, PartialEq, Eq)]
pub enum WsClientStep {
    /// Write these bytes to the local client socket.
    WriteClient(Vec<u8>),
    /// Tear the relay down.
    Stop,
    /// Nothing to do for this envelope.
    Continue,
}

pub fn ws_client_on_server_text(text: &Vec<u8>) -> (r: WsClientStep)
    ensures
        forall|d: Seq<u8>|
            text@ == spec_ws_message_json(WsMessageView::Data(d)) ==> (r matches WsClientStep::WriteClient(b)
                && b@ == d),
        forall|e: Seq<char>|
            text@ == spec_ws_message_json(WsMessageView::Error(e)) ==> r is Stop,
        (forall|w: WsMessageView| text@ != spec_ws_message_json(w)) ==> r is Continue,
        forall|w: WsMessageView|
            (text@ == #[trigger] spec_ws_message_json(w) && !(w is Data) && !(w is Error)) ==> r
                is Continue,
{
    match parse_ws_message(text) {
        Some(WsMessage::Data(d)) => WsClientStep::WriteClient(d),
        Some(WsMessage::Error(_)) => WsClientStep::Stop,
        _ => WsClientStep::Continue,
    }
}

} // verus!
