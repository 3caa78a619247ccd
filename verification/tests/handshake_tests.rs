use proxy_core::crypto::CryptoManager;
use proxy_core::handshake::{interpret_handshake_response, server_handshake, str_eq};
use proxy_core::messages::{HandshakeRequest, HandshakeResponse};
use proxy_core::session::SessionTable;
use proxy_core::transport::{
    open_handshake_request, open_handshake_response, open_proxy_request, open_proxy_response,
    seal_handshake_request, seal_proxy_request, seal_proxy_response, server_handshake_frames,
};
use proxy_core::ProxyError;

fn req(token: &str) -> HandshakeRequest {
    HandshakeRequest {
        token: token.to_string(),
        client_id: uuid::Uuid::new_v4().to_string(),
    }
}

#[test]
fn comparison_is_exact() {
    assert!(str_eq("secret", "secret"));
    assert!(!str_eq("secret", "secre1"));
    assert!(!str_eq("secret", "secrets"));
    assert!(!str_eq("", "x"));
    assert!(str_eq("", ""));
}

#[test]
fn wrong_token_is_refused_and_leaves_no_session() {
    let mut table = SessionTable::new();
    let (resp, sid) = server_handshake(&mut table, "right", &req("wrong"), "peer-1", uuid::Uuid::new_v4().to_string(), 0);
    assert!(!resp.success);
    assert_eq!(resp.session_id, None);
    assert_eq!(sid, None);
    assert_eq!(table.session_count(), 0);
}

#[test]
fn right_token_records_the_session_until_the_tunnel_closes() {
    let mut table = SessionTable::new();
    let fresh = uuid::Uuid::new_v4().to_string();
    let (resp, sid) = server_handshake(&mut table, "right", &req("right"), "peer-1", fresh.clone(), 7);
    assert!(resp.success);
    let sid = sid.unwrap();
    assert_eq!(sid, fresh);
    assert_eq!(resp.session_id, Some(fresh.clone()));
    assert!(table.contains_session(&sid));
    assert_eq!(table.session_count(), 1);
    table.remove_session(&sid);
    assert!(!table.contains_session(&sid));
    assert_eq!(table.session_count(), 0);
}

#[test]
fn a_thousand_handshakes_get_distinct_session_ids() {
    let mut table = SessionTable::new();
    let mut ids = Vec::new();
    for _ in 0..1000 {
        let (resp, sid) = server_handshake(&mut table, "tok", &req("tok"), "peer-n", uuid::Uuid::new_v4().to_string(), 0);
        assert!(resp.success);
        ids.push(sid.unwrap());
    }
    assert_eq!(table.session_count(), 1000);
    ids.sort();
    for w in ids.windows(2) {
        assert_ne!(w[0], w[1]);
    }
}

#[test]
fn clients_treat_refusals_as_fatal() {
    let refused = HandshakeResponse {
        success: false,
        message: "no".to_string(),
        session_id: None,
    };
    assert_eq!(
        interpret_handshake_response(&refused),
        Err(ProxyError::AuthenticationError)
    );
    let granted = HandshakeResponse {
        success: true,
        message: "ok".to_string(),
        session_id: Some("sid".to_string()),
    };
    assert_eq!(interpret_handshake_response(&granted), Ok("sid".to_string()));
    let granted_without_id = HandshakeResponse {
        success: true,
        message: "ok".to_string(),
        session_id: None,
    };
    assert_eq!(interpret_handshake_response(&granted_without_id), Ok(String::new()));
}

fn frame_payload(frame: &[u8]) -> Vec<u8> {
    let len = u32::from_be_bytes([frame[0], frame[1], frame[2], frame[3]]) as usize;
    assert_eq!(frame.len(), 4 + len);
    frame[4..].to_vec()
}

#[test]
fn framed_handshake_succeeds_end_to_end() {
    let crypto = CryptoManager::new(&CryptoManager::generate_key()).unwrap();
    let mut table = SessionTable::new();

    let client_frame = seal_handshake_request(&crypto, &req("shared")).unwrap();
    let payload = frame_payload(&client_frame);
    let (reply_frame, sid) = server_handshake_frames(&crypto, &mut table, "shared", "198.51.100.7:4242", &payload, 3)
        .unwrap();
    let sid = sid.unwrap();
    assert!(table.contains_session(&sid));

    let reply_payload = frame_payload(&reply_frame);
    let resp = open_handshake_response(&crypto, &reply_payload).unwrap();
    assert!(resp.success);
    assert_eq!(resp.session_id, Some(sid));
}

#[test]
fn framed_handshake_with_wrong_token_is_refused() {
    let crypto = CryptoManager::new(&CryptoManager::generate_key()).unwrap();
    let mut table = SessionTable::new();

    let client_frame = seal_handshake_request(&crypto, &req("guess")).unwrap();
    let payload = frame_payload(&client_frame);
    let (reply_frame, sid) = server_handshake_frames(&crypto, &mut table, "shared", "198.51.100.7:4242", &payload, 3)
        .unwrap();
    assert_eq!(sid, None);
    assert_eq!(table.session_count(), 0);

    let resp = open_handshake_response(&crypto, &frame_payload(&reply_frame)).unwrap();
    assert!(!resp.success);
    assert_eq!(resp.session_id, None);
}

#[test]
fn framed_handshake_rejects_garbage() {
    let crypto = CryptoManager::new(&CryptoManager::generate_key()).unwrap();
    let mut table = SessionTable::new();
    let r = server_handshake_frames(&crypto, &mut table, "shared", "198.51.100.7:4242", &vec![1, 2, 3], 0);
    assert_eq!(r.err(), Some(ProxyError::CryptoError));

    // an authentic frame that does not carry a handshake request
    let not_a_handshake = crypto.encrypt(b"[1,2,3]").unwrap();
    let r = server_handshake_frames(&crypto, &mut table, "shared", "198.51.100.7:4242", &not_a_handshake, 0);
    assert_eq!(r.err(), Some(ProxyError::ProtocolError));
    assert_eq!(table.session_count(), 0);
}

#[test]
fn framed_proxy_messages_round_trip() {
    let crypto = CryptoManager::new(&CryptoManager::generate_key()).unwrap();

    let req = proxy_core::messages::ProxyRequest {
        target_addr: "example.com:80".to_string(),
    };
    let frame = seal_proxy_request(&crypto, &req).unwrap();
    let back = open_proxy_request(&crypto, &frame_payload(&frame)).unwrap();
    assert_eq!(back, req);

    let resp = proxy_core::messages::ProxyResponse {
        success: true,
        message: "connection succeeded".to_string(),
    };
    let frame = seal_proxy_response(&crypto, &resp).unwrap();
    let back = open_proxy_response(&crypto, &frame_payload(&frame)).unwrap();
    assert_eq!(back, resp);

    // a request cannot be opened as a response
    let frame = seal_proxy_request(&crypto, &req).unwrap();
    assert_eq!(
        open_proxy_response(&crypto, &frame_payload(&frame)).err(),
        Some(ProxyError::ProtocolError)
    );

    // the handshake-request opener refuses other messages too
    assert_eq!(
        open_handshake_request(&crypto, &frame_payload(&seal_proxy_request(&crypto, &req).unwrap()))
            .err(),
        Some(ProxyError::ProtocolError)
    );
}

#[test]
fn granted_session_ids_are_36_characters() {
    let mut table = SessionTable::new();
    let (resp, _) = server_handshake(
        &mut table,
        "tok",
        &req("tok"),
        "peer-1",
        uuid::Uuid::new_v4().to_string(),
        0,
    );
    assert_eq!(resp.session_id.unwrap().chars().count(), 36);
}
