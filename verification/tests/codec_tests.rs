use proxy_core::envelope::{encode_ws_message, parse_ws_message, WsMessage};
use proxy_core::messages::{
    encode_handshake_request, encode_handshake_response, encode_proxy_request,
    encode_proxy_response, parse_handshake_request_at, parse_handshake_response_at,
    parse_proxy_request_at, parse_proxy_response_at, HandshakeRequest, HandshakeResponse,
    ProxyRequest, ProxyResponse,
};

fn hs_req(token: &str, client_id: &str) -> HandshakeRequest {
    HandshakeRequest {
        token: token.to_string(),
        client_id: client_id.to_string(),
    }
}

#[test]
fn handshake_request_wire_form_is_exact() {
    let m = hs_req("secret", "client-1");
    let out = encode_handshake_request(&m);
    assert_eq!(out, br#"{"token":"secret","clientId":"client-1"}"#.to_vec());
}

#[test]
fn handshake_request_round_trips() {
    let m = hs_req("secret", "client-1");
    let out = encode_handshake_request(&m);
    let (back, end) = parse_handshake_request_at(&out, 0).unwrap();
    assert_eq!(back, m);
    assert_eq!(end, out.len());
}

#[test]
fn string_escapes_round_trip() {
    let m = hs_req("a\"b\\c\nd\te\rf\u{8}g\u{c}h\u{1}i", "héllo→☃");
    let out = encode_handshake_request(&m);
    let (back, end) = parse_handshake_request_at(&out, 0).unwrap();
    assert_eq!(back, m);
    assert_eq!(end, out.len());
}

#[test]
fn control_escapes_use_lowercase_hex() {
    let m = hs_req("\u{1}", "\u{1f}");
    let out = encode_handshake_request(&m);
    assert_eq!(
        out,
        br#"{"token":"\u0001","clientId":"\u001f"}"#.to_vec()
    );
}

#[test]
fn whitespace_variants_are_not_canonical() {
    let relaxed = br#"{"token": "secret","clientId":"c"}"#.to_vec();
    assert!(parse_handshake_request_at(&relaxed, 0).is_none());
    let wrong_order = br#"{"clientId":"c","token":"secret"}"#.to_vec();
    assert!(parse_handshake_request_at(&wrong_order, 0).is_none());
}

#[test]
fn handshake_response_wire_forms_are_exact() {
    let granted = HandshakeResponse {
        success: true,
        message: "ok".to_string(),
        session_id: Some("sid-1".to_string()),
    };
    assert_eq!(
        encode_handshake_response(&granted),
        br#"{"success":true,"message":"ok","sessionId":"sid-1"}"#.to_vec()
    );
    let refused = HandshakeResponse {
        success: false,
        message: "no".to_string(),
        session_id: None,
    };
    assert_eq!(
        encode_handshake_response(&refused),
        br#"{"success":false,"message":"no","sessionId":null}"#.to_vec()
    );
    for m in [granted, refused] {
        let out = encode_handshake_response(&m);
        let (back, end) = parse_handshake_response_at(&out, 0).unwrap();
        assert_eq!(back, m);
        assert_eq!(end, out.len());
    }
}

#[test]
fn proxy_messages_round_trip() {
    let req = ProxyRequest {
        target_addr: "93.184.216.34:80".to_string(),
    };
    let out = encode_proxy_request(&req);
    assert_eq!(out, br#"{"targetAddr":"93.184.216.34:80"}"#.to_vec());
    assert_eq!(parse_proxy_request_at(&out, 0).unwrap().0, req);

    let resp = ProxyResponse {
        success: true,
        message: "connection succeeded".to_string(),
    };
    let out = encode_proxy_response(&resp);
    assert_eq!(
        out,
        br#"{"success":true,"message":"connection succeeded"}"#.to_vec()
    );
    assert_eq!(parse_proxy_response_at(&out, 0).unwrap().0, resp);
}

#[test]
fn envelopes_have_exact_wire_forms() {
    let m = WsMessage::Handshake(hs_req("t", "c"));
    assert_eq!(
        encode_ws_message(&m),
        br#"{"type":"Handshake","data":{"token":"t","clientId":"c"}}"#.to_vec()
    );
    let m = WsMessage::Data(vec![0, 255, 30, 7]);
    assert_eq!(
        encode_ws_message(&m),
        br#"{"type":"Data","data":[0,255,30,7]}"#.to_vec()
    );
    let m = WsMessage::Data(vec![]);
    assert_eq!(encode_ws_message(&m), br#"{"type":"Data","data":[]}"#.to_vec());
    let m = WsMessage::Error("boom".to_string());
    assert_eq!(
        encode_ws_message(&m),
        br#"{"type":"Error","data":"boom"}"#.to_vec()
    );
}

#[test]
fn every_envelope_variant_round_trips() {
    let msgs = vec![
        WsMessage::Handshake(hs_req("tok", "cid")),
        WsMessage::HandshakeResponse(HandshakeResponse {
            success: true,
            message: "authentication succeeded".to_string(),
            session_id: Some("0f0e0d0c-0b0a-0908-0706-050403020100".to_string()),
        }),
        WsMessage::ProxyRequest(ProxyRequest {
            target_addr: "example.com:443".to_string(),
        }),
        WsMessage::ProxyResponse(ProxyResponse {
            success: false,
            message: "dial failed".to_string(),
        }),
        WsMessage::Data((0u8..=255).collect()),
        WsMessage::Error("fatal".to_string()),
    ];
    for m in msgs {
        let out = encode_ws_message(&m);
        assert_eq!(parse_ws_message(&out), Some(m));
    }
}

#[test]
fn malformed_envelopes_are_rejected() {
    assert_eq!(parse_ws_message(&b"".to_vec()), None);
    assert_eq!(parse_ws_message(&br#"{"type":"Data"}"#.to_vec()), None);
    assert_eq!(
        parse_ws_message(&br#"{"type":"Data","data":[00]}"#.to_vec()),
        None
    );
    assert_eq!(
        parse_ws_message(&br#"{"type":"Data","data":[256]}"#.to_vec()),
        None
    );
    // trailing bytes after a well-formed envelope
    assert_eq!(
        parse_ws_message(&br#"{"type":"Error","data":"x"} "#.to_vec()),
        None
    );
    // an unknown tag
    assert_eq!(
        parse_ws_message(&br#"{"type":"Ping","data":"x"}"#.to_vec()),
        None
    );
}
