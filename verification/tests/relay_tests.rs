use proxy_core::crypto::CryptoManager;
use proxy_core::envelope::{encode_ws_message, WsMessage};
use proxy_core::relay::{seal_frame, READ_CHUNK_LEN, WS_CHUNK_LEN};
use proxy_core::wire::header_payload_len;
use proxy_core::ws::{
    ws_client_handshake_text, ws_client_interpret_handshake_reply, ws_client_interpret_proxy_reply,
    ws_client_on_server_text, ws_server_dial_reply, ws_server_handshake_text, ws_server_on_text,
    WsClientStep, WsServerPhase, WsServerStep,
};
use proxy_core::session::SessionTable;
use proxy_core::ProxyError;

/// A fixed pseudo-random payload, reproducible across runs.
fn pseudo_random(n: usize) -> Vec<u8> {
    let mut state: u32 = 0x1234_5678;
    let mut out = Vec::with_capacity(n);
    for _ in 0..n {
        state = state.wrapping_mul(1664525).wrapping_add(1013904223);
        out.push((state >> 24) as u8);
    }
    out
}

/// The receiving pump of the framed transport: read a length header, read
/// that many payload bytes, open them.
fn drain_frames(crypto: &CryptoManager, stream: &[u8]) -> Vec<u8> {
    let mut out = Vec::new();
    let mut pos = 0usize;
    while pos < stream.len() {
        let header = stream[pos..pos + 4].to_vec();
        let n = header_payload_len(&header).unwrap() as usize;
        pos += 4;
        let payload = stream[pos..pos + n].to_vec();
        pos += n;
        out.extend_from_slice(&crypto.decrypt(&payload).unwrap());
    }
    out
}

#[test]
fn twenty_thousand_bytes_survive_the_framed_transport() {
    let crypto = CryptoManager::new(&CryptoManager::generate_key()).unwrap();
    let data = pseudo_random(20_000);

    // the sending pump: one frame per read chunk
    let mut stream = Vec::new();
    for chunk in data.chunks(READ_CHUNK_LEN) {
        let frame = seal_frame(&crypto, chunk).unwrap();
        stream.extend_from_slice(&frame);
    }
    assert!(stream.len() > data.len());
    assert_eq!(drain_frames(&crypto, &stream), data);
}

#[test]
fn oversized_chunks_are_refused() {
    let crypto = CryptoManager::new(&CryptoManager::generate_key()).unwrap();
    let too_big = vec![0u8; 65536 - 27];
    assert_eq!(seal_frame(&crypto, &too_big), Err(ProxyError::TransportError));
    let just_fits = vec![0u8; 65536 - 28];
    assert!(seal_frame(&crypto, &just_fits).is_ok());
}

#[test]
fn twenty_thousand_bytes_survive_the_enveloped_transport() {
    let data = pseudo_random(20_000);

    // client -> server: one data envelope per chunk; the server-side engine
    // forwards each to the target, and the echoed bytes come back as data
    // envelopes that the client-side engine writes out.
    let mut echoed = Vec::new();
    for chunk in data.chunks(WS_CHUNK_LEN) {
        let text = encode_ws_message(&WsMessage::Data(chunk.to_vec()));
        let step = ws_server_on_text(&WsServerPhase::Relaying, &text);
        let forwarded = match step {
            WsServerStep::Forward(b) => b,
            other => panic!("expected a forward, got {:?}", other),
        };
        assert_eq!(forwarded, chunk);
        // the echo target sends the same bytes back
        let reply = encode_ws_message(&WsMessage::Data(forwarded));
        match ws_client_on_server_text(&reply) {
            WsClientStep::WriteClient(b) => echoed.extend_from_slice(&b),
            other => panic!("expected a client write, got {:?}", other),
        }
    }
    assert_eq!(echoed, data);
}

#[test]
fn enveloped_handshake_and_request_flow() {
    let mut table = SessionTable::new();

    // wrong token: refusal, nothing recorded
    let hello = ws_client_handshake_text("guess", "cid-1".to_string());
    let (reply, sid) = ws_server_handshake_text(&mut table, "shared", &hello, 0);
    assert_eq!(sid, None);
    assert_eq!(table.session_count(), 0);
    assert_eq!(
        ws_client_interpret_handshake_reply(&reply),
        Err(ProxyError::AuthenticationError)
    );

    // right token: the session id is granted and recorded
    let hello = ws_client_handshake_text("shared", "cid-2".to_string());
    let (reply, sid) = ws_server_handshake_text(&mut table, "shared", &hello, 0);
    let sid = sid.unwrap();
    assert!(table.contains_session(&sid));
    assert_eq!(ws_client_interpret_handshake_reply(&reply), Ok(sid.clone()));

    // a proxy request is dialed
    let req = encode_ws_message(&WsMessage::ProxyRequest(proxy_core::messages::ProxyRequest {
        target_addr: "example.com:80".to_string(),
    }));
    match ws_server_on_text(&WsServerPhase::AwaitingRequest, &req) {
        WsServerStep::Dial(t) => assert_eq!(t, "example.com:80"),
        other => panic!("expected a dial, got {:?}", other),
    }

    // the dial outcome answers the client; only a success lets the session
    // go on, a failure tears it down once the reply is out
    let (reply, session_goes_on) = ws_server_dial_reply(None);
    assert!(session_goes_on);
    assert!(ws_client_interpret_proxy_reply(&reply));
    let (reply, session_goes_on) = ws_server_dial_reply(Some("connection refused".to_string()));
    assert!(!session_goes_on);
    assert!(!ws_client_interpret_proxy_reply(&reply));
    assert_eq!(
        reply,
        br#"{"type":"ProxyResponse","data":{"success":false,"message":"connection refused"}}"#
            .to_vec()
    );

    // the session ends with its tunnel
    table.remove_session(&sid);
    assert!(!table.contains_session(&sid));
}

#[test]
fn stray_envelopes_are_handled_as_the_protocol_says() {
    let mut table = SessionTable::new();

    // the first message must be a handshake
    let stray = encode_ws_message(&WsMessage::Data(vec![1, 2]));
    let (reply, sid) = ws_server_handshake_text(&mut table, "shared", &stray, 0);
    assert_eq!(sid, None);
    assert_eq!(
        reply,
        br#"{"type":"Error","data":"invalid handshake message"}"#.to_vec()
    );

    // malformed text is ignored mid-session
    let garbled = b"not an envelope".to_vec();
    assert_eq!(
        ws_server_on_text(&WsServerPhase::Relaying, &garbled),
        WsServerStep::Continue
    );
    assert_eq!(ws_client_on_server_text(&garbled), WsClientStep::Continue);

    // data before a target is connected goes nowhere
    let data = encode_ws_message(&WsMessage::Data(vec![9]));
    assert_eq!(
        ws_server_on_text(&WsServerPhase::AwaitingRequest, &data),
        WsServerStep::Continue
    );

    // an error envelope stops either side
    let error = encode_ws_message(&WsMessage::Error("boom".to_string()));
    assert_eq!(
        ws_server_on_text(&WsServerPhase::Relaying, &error),
        WsServerStep::Stop
    );
    assert_eq!(ws_client_on_server_text(&error), WsClientStep::Stop);
}
