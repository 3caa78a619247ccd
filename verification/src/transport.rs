//! The control channel of the encrypted transport: handshake and
//! proxy-request messages travel as JSON payloads sealed into frames, and
//! the server's whole handshake step over one received frame.

use vstd::prelude::*;

use crate::crypto::{decryption_of, CryptoManager};
use crate::messages::{
    encode_handshake_request, encode_handshake_response, encode_proxy_request,
    encode_proxy_response, parse_handshake_request_at, parse_handshake_response_at,
    parse_proxy_request_at, parse_proxy_response_at, region_match, spec_handshake_request_json,
    spec_handshake_response_json, spec_proxy_request_json, spec_proxy_response_json,
    HandshakeRequest, HandshakeRequestView, HandshakeResponse, HandshakeResponseView,
    ProxyRequest, ProxyRequestView, ProxyResponse, ProxyResponseView,
};
use crate::relay::{seal_frame, spec_open_frame};
use crate::session::{SessionTable, SessionView};
use crate::wire::MAX_FRAME_LEN;
use crate::ProxyError;

verus! {

/// Seals one handshake request as a control frame of the encrypted
/// transport. Owed success exactly when the canonical wire form fits one
/// frame; the peer opens the frame back into exactly that form.
pub fn seal_handshake_request(crypto: &CryptoManager, m: &HandshakeRequest) -> (r: Result<Vec<u8>, ProxyError>)
    requires
        crypto.wf(),
    ensures
        spec_handshake_request_json(m@).len() + 28 <= MAX_FRAME_LEN ==> r is Ok,
        spec_handshake_request_json(m@).len() + 28 > MAX_FRAME_LEN ==> (r matches Err(e)
            && e is TransportError),
        r matches Ok(f) ==> spec_open_frame(crypto@, f@) == Some(spec_handshake_request_json(m@)),
{
    let enc = encode_handshake_request(m);
    seal_frame(crypto, enc.as_slice())
}

/// Opens one control-frame payload of the encrypted transport as a
/// handshake request: decryption failure is a crypto error; a decrypted
/// payload that is not the canonical form of exactly one message is a
/// protocol error.
pub fn open_handshake_request(crypto: &CryptoManager, payload: &Vec<u8>) -> (r: Result<HandshakeRequest, ProxyError>)
    requires
        crypto.wf(),
    ensures
        match decryption_of(crypto@, payload@) {
            None => r matches Err(e) && e is CryptoError,
            Some(pl) => match r {
                Ok(m) => pl == spec_handshake_request_json(m@) && (forall|v: HandshakeRequestView|
                    pl == spec_handshake_request_json(v) ==> v == m@),
                Err(e) => e is ProtocolError && (forall|v: HandshakeRequestView| pl != spec_handshake_request_json(v)),
            },
        },
{
    let plain = match crypto.decrypt(payload.as_slice()) {
        Ok(p) => p,
        Err(_) => {
            return Err(ProxyError::CryptoError);
        },
    };
    match parse_handshake_request_at(&plain, 0) {
        Some((m, e)) => {
            if e == plain.len() {
                proof {
                    assert(plain@.subrange(0, plain@.len() as int) =~= plain@);
                    assert forall|v: HandshakeRequestView| plain@ == spec_handshake_request_json(v) implies v == m@ by {
                        assert(region_match(plain@, 0, spec_handshake_request_json(v))) by {
                            assert(plain@.subrange(0, spec_handshake_request_json(v).len() as int) =~= plain@);
                        }
                    }
                }
                Ok(m)
            } else {
                proof {
                    assert forall|v: HandshakeRequestView| plain@ != spec_handshake_request_json(v) by {
                        if plain@ == spec_handshake_request_json(v) {
                            assert(region_match(plain@, 0, spec_handshake_request_json(v))) by {
                                assert(plain@.subrange(0, spec_handshake_request_json(v).len() as int)
                                    =~= plain@);
                            }
                        }
                    }
                }
                Err(ProxyError::ProtocolError)
            }
        },
        None => {
            proof {
                assert forall|v: HandshakeRequestView| plain@ != spec_handshake_request_json(v) by {
                    if plain@ == spec_handshake_request_json(v) {
                        assert(region_match(plain@, 0, spec_handshake_request_json(v))) by {
                            assert(plain@.subrange(0, spec_handshake_request_json(v).len() as int) =~= plain@);
                        }
                    }
                }
            }
            Err(ProxyError::ProtocolError)
        },
    }
}

/// Seals one handshake response as a control frame of the encrypted
/// transport. Owed success exactly when the canonical wire form fits one
/// frame; the peer opens the frame back into exactly that form.
pub fn seal_handshake_response(crypto: &CryptoManager, m: &HandshakeResponse) -> (r: Result<Vec<u8>, ProxyError>)
    requires
        crypto.wf(),
    ensures
        spec_handshake_response_json(m@).len() + 28 <= MAX_FRAME_LEN ==> r is Ok,
        spec_handshake_response_json(m@).len() + 28 > MAX_FRAME_LEN ==> (r matches Err(e)
            && e is TransportError),
        r matches Ok(f) ==> spec_open_frame(crypto@, f@) == Some(spec_handshake_response_json(m@)),
{
    let enc = encode_handshake_response(m);
    seal_frame(crypto, enc.as_slice())
}

/// Opens one control-frame payload of the encrypted transport as a
/// handshake response: decryption failure is a crypto error; a decrypted
/// payload that is not the canonical form of exactly one message is a
/// protocol error.
pub fn open_handshake_response(crypto: &CryptoManager, payload: &Vec<u8>) -> (r: Result<HandshakeResponse, ProxyError>)
    requires
        crypto.wf(),
    ensures
        match decryption_of(crypto@, payload@) {
            None => r matches Err(e) && e is CryptoError,
            Some(pl) => match r {
                Ok(m) => pl == spec_handshake_response_json(m@) && (forall|v: HandshakeResponseView|
                    pl == spec_handshake_response_json(v) ==> v == m@),
                Err(e) => e is ProtocolError && (forall|v: HandshakeResponseView| pl != spec_handshake_response_json(v)),
            },
        },
{
    let plain = match crypto.decrypt(payload.as_slice()) {
        Ok(p) => p,
        Err(_) => {
            return Err(ProxyError::CryptoError);
        },
    };
    match parse_handshake_response_at(&plain, 0) {
        Some((m, e)) => {
            if e == plain.len() {
                proof {
                    assert(plain@.subrange(0, plain@.len() as int) =~= plain@);
                    assert forall|v: HandshakeResponseView| plain@ == spec_handshake_response_json(v) implies v == m@ by {
                        assert(region_match(plain@, 0, spec_handshake_response_json(v))) by {
                            assert(plain@.subrange(0, spec_handshake_response_json(v).len() as int) =~= plain@);
                        }
                    }
                }
                Ok(m)
            } else {
                proof {
                    assert forall|v: HandshakeResponseView| plain@ != spec_handshake_response_json(v) by {
                        if plain@ == spec_handshake_response_json(v) {
                            assert(region_match(plain@, 0, spec_handshake_response_json(v))) by {
                                assert(plain@.subrange(0, spec_handshake_response_json(v).len() as int)
                                    =~= plain@);
                            }
                        }
                    }
                }
                Err(ProxyError::ProtocolError)
            }
        },
        None => {
            proof {
                assert forall|v: HandshakeResponseView| plain@ != spec_handshake_response_json(v) by {
                    if plain@ == spec_handshake_response_json(v) {
                        assert(region_match(plain@, 0, spec_handshake_response_json(v))) by {
                            assert(plain@.subrange(0, spec_handshake_response_json(v).len() as int) =~= plain@);
                        }
                    }
                }
            }
            Err(ProxyError::ProtocolError)
        },
    }
}

/// Seals one proxy request as a control frame of the encrypted
/// transport. Owed success exactly when the canonical wire form fits one
/// frame; the peer opens the frame back into exactly that form.
pub fn seal_proxy_request(crypto: &CryptoManager, m: &ProxyRequest) -> (r: Result<Vec<u8>, ProxyError>)
    requires
        crypto.wf(),
    ensures
        spec_proxy_request_json(m@).len() + 28 <= MAX_FRAME_LEN ==> r is Ok,
        spec_proxy_request_json(m@).len() + 28 > MAX_FRAME_LEN ==> (r matches Err(e)
            && e is TransportError),
        r matches Ok(f) ==> spec_open_frame(crypto@, f@) == Some(spec_proxy_request_json(m@)),
{
    let enc = encode_proxy_request(m);
    seal_frame(crypto, enc.as_slice())
}

/// Opens one control-frame payload of the encrypted transport as a
/// proxy request: decryption failure is a crypto error; a decrypted
/// payload that is not the canonical form of exactly one message is a
/// protocol error.
pub fn open_proxy_request(crypto: &CryptoManager, payload: &Vec<u8>) -> (r: Result<ProxyRequest, ProxyError>)
    requires
        crypto.wf(),
    ensures
        match decryption_of(crypto@, payload@) {
            None => r matches Err(e) && e is CryptoError,
            Some(pl) => match r {
                Ok(m) => pl == spec_proxy_request_json(m@) && (forall|v: ProxyRequestView|
                    pl == spec_proxy_request_json(v) ==> v == m@),
                Err(e) => e is ProtocolError && (forall|v: ProxyRequestView| pl != spec_proxy_request_json(v)),
            },
        },
{
    let plain = match crypto.decrypt(payload.as_slice()) {
        Ok(p) => p,
        Err(_) => {
            return Err(ProxyError::CryptoError);
        },
    };
    match parse_proxy_request_at(&plain, 0) {
        Some((m, e)) => {
            if e == plain.len() {
                proof {
                    assert(plain@.subrange(0, plain@.len() as int) =~= plain@);
                    assert forall|v: ProxyRequestView| plain@ == spec_proxy_request_json(v) implies v == m@ by {
                        assert(region_match(plain@, 0, spec_proxy_request_json(v))) by {
                            assert(plain@.subrange(0, spec_proxy_request_json(v).len() as int) =~= plain@);
                        }
                    }
                }
                Ok(m)
            } else {
                proof {
                    assert forall|v: ProxyRequestView| plain@ != spec_proxy_request_json(v) by {
                        if plain@ == spec_proxy_request_json(v) {
                            assert(region_match(plain@, 0, spec_proxy_request_json(v))) by {
                                assert(plain@.subrange(0, spec_proxy_request_json(v).len() as int)
                                    =~= plain@);
                            }
                        }
                    }
                }
                Err(ProxyError::ProtocolError)
            }
        },
        None => {
            proof {
                assert forall|v: ProxyRequestView| plain@ != spec_proxy_request_json(v) by {
                    if plain@ == spec_proxy_request_json(v) {
                        assert(region_match(plain@, 0, spec_proxy_request_json(v))) by {
                            assert(plain@.subrange(0, spec_proxy_request_json(v).len() as int) =~= plain@);
                        }
                    }
                }
            }
            Err(ProxyError::ProtocolError)
        },
    }
}

/// Seals one proxy response as a control frame of the encrypted
/// transport. Owed success exactly when the canonical wire form fits one
/// frame; the peer opens the frame back into exactly that form.
pub fn seal_proxy_response(crypto: &CryptoManager, m: &ProxyResponse) -> (r: Result<Vec<u8>, ProxyError>)
    requires
        crypto.wf(),
    ensures
        spec_proxy_response_json(m@).len() + 28 <= MAX_FRAME_LEN ==> r is Ok,
        spec_proxy_response_json(m@).len() + 28 > MAX_FRAME_LEN ==> (r matches Err(e)
            && e is TransportError),
        r matches Ok(f) ==> spec_open_frame(crypto@, f@) == Some(spec_proxy_response_json(m@)),
{
    let enc = encode_proxy_response(m);
    seal_frame(crypto, enc.as_slice())
}

/// Opens one control-frame payload of the encrypted transport as a
/// proxy response: decryption failure is a crypto error; a decrypted
/// payload that is not the canonical form of exactly one message is a
/// protocol error.
pub fn open_proxy_response(crypto: &CryptoManager, payload: &Vec<u8>) -> (r: Result<ProxyResponse, ProxyError>)
    requires
        crypto.wf(),
    ensures
        match decryption_of(crypto@, payload@) {
            None => r matches Err(e) && e is CryptoError,
            Some(pl) => match r {
                Ok(m) => pl == spec_proxy_response_json(m@) && (forall|v: ProxyResponseView|
                    pl == spec_proxy_response_json(v) ==> v == m@),
                Err(e) => e is ProtocolError && (forall|v: ProxyResponseView| pl != spec_proxy_response_json(v)),
            },
        },
{
    let plain = match crypto.decrypt(payload.as_slice()) {
        Ok(p) => p,
        Err(_) => {
            return Err(ProxyError::CryptoError);
        },
    };
    match parse_proxy_response_at(&plain, 0) {
        Some((m, e)) => {
            if e == plain.len() {
                proof {
                    assert(plain@.subrange(0, plain@.len() as int) =~= plain@);
                    assert forall|v: ProxyResponseView| plain@ == spec_proxy_response_json(v) implies v == m@ by {
                        assert(region_match(plain@, 0, spec_proxy_response_json(v))) by {
                            assert(plain@.subrange(0, spec_proxy_response_json(v).len() as int) =~= plain@);
                        }
                    }
                }
                Ok(m)
            } else {
                proof {
                    assert forall|v: ProxyResponseView| plain@ != spec_proxy_response_json(v) by {
                        if plain@ == spec_proxy_response_json(v) {
                            assert(region_match(plain@, 0, spec_proxy_response_json(v))) by {
                                assert(plain@.subrange(0, spec_proxy_response_json(v).len() as int)
                                    =~= plain@);
                            }
                        }
                    }
                }
                Err(ProxyError::ProtocolError)
            }
        },
        None => {
            proof {
                assert forall|v: ProxyResponseView| plain@ != spec_proxy_response_json(v) by {
                    if plain@ == spec_proxy_response_json(v) {
                        assert(region_match(plain@, 0, spec_proxy_response_json(v))) by {
                            assert(plain@.subrange(0, spec_proxy_response_json(v).len() as int) =~= plain@);
                        }
                    }
                }
            }
            Err(ProxyError::ProtocolError)
        },
    }
}

} // verus!

verus! {

/// The server's whole handshake step over one received control frame:
/// open the request, decide, record the session on success under the
/// peer's address, and seal the response frame to send back. The second
/// half of the result is the session identifier, present exactly when the
/// token matched; on a refusal the frame still goes out before the
/// connection is torn down.
pub fn server_handshake_frames(
    crypto: &CryptoManager,
    table: &mut SessionTable,
    expected_token: &str,
    peer: &str,
    payload: &Vec<u8>,
    now: u64,
) -> (r: Result<(Vec<u8>, Option<String>), ProxyError>)
    requires
        crypto.wf(),
        old(table).wf(),
    ensures
        final(table).wf(),
        match decryption_of(crypto@, payload@) {
            None => (r matches Err(e) && e is CryptoError) && final(table)@ == old(table)@,
            Some(pl) => {
                &&& ((forall|rv: HandshakeRequestView| pl != spec_handshake_request_json(rv)) ==> ((
                r matches Err(e) && e is ProtocolError) && final(table)@ == old(table)@))
                &&& forall|rv: HandshakeRequestView|
                    (pl == spec_handshake_request_json(rv) && rv.token == expected_token@) ==> (
                    r matches Ok(p) && (p.1 matches Some(sid) && final(table)@ == old(
                        table,
                    )@.insert(sid@, (SessionView { client_id: peer@, connected_at: now }))
                        && spec_open_frame(crypto@, p.0@) == Some(
                        spec_handshake_response_json(
                            (HandshakeResponseView {
                                success: true,
                                message: "authentication succeeded"@,
                                session_id: Some(sid@),
                            }),
                        ),
                    )))
                &&& forall|rv: HandshakeRequestView|
                    (pl == spec_handshake_request_json(rv) && rv.token != expected_token@) ==> (
                    r matches Ok(p) && (p.1 is None && final(table)@ == old(table)@
                        && spec_open_frame(crypto@, p.0@) == Some(
                        spec_handshake_response_json(
                            (HandshakeResponseView {
                                success: false,
                                message: "authentication failed: invalid token"@,
                                session_id: None,
                            }),
                        ),
                    )))
            },
        },
{
    let req = match open_handshake_request(crypto, payload) {
        Ok(m) => m,
        Err(e) => {
            return Err(e);
        },
    };
    let fresh = crate::session::fresh_uuid_string();
    let (resp, sid) = crate::handshake::server_handshake(
        table,
        expected_token,
        &req,
        peer,
        fresh,
        now,
    );
    proof {
        crate::json::lemma_json_string_len(resp@.message);
        match resp@.session_id {
            Some(s) => crate::json::lemma_json_string_len(s),
            None => {},
        }
        reveal_strlit("authentication succeeded");
        reveal_strlit("authentication failed: invalid token");
        assert(spec_handshake_response_json(resp@).len() + 28 <= MAX_FRAME_LEN);
    }
    let frame = match seal_handshake_response(crypto, &resp) {
        Ok(f) => f,
        Err(_) => {
            proof {
                assert(false);
            }
            return Err(ProxyError::TransportError);
        },
    };
    Ok((frame, sid))
}

} // verus!
