//! The four control messages of the handshake and proxy-request protocol,
//! with their canonical JSON wire forms.
//!
//! Each message has one canonical encoding (fixed field order, no
//! whitespace); the parsers accept exactly that form, so each codec's two
//! directions are proved inverse through the contracts.

use vstd::prelude::*;
use vstd::utf8::encode_utf8;

use crate::json::{
    append_json_string, expect_bytes, lemma_string_token_complete, lemma_string_token_sound,
    parse_json_string, spec_json_string, spec_string_token_at,
};

verus! {

/// `tok` sits in `input` at position `pos`.
pub open spec fn region_match(input: Seq<u8>, pos: int, tok: Seq<u8>) -> bool {
    &&& 0 <= pos
    &&& pos + tok.len() <= input.len()
    &&& input.subrange(pos, pos + tok.len() as int) == tok
}

pub proof fn lemma_region_split(input: Seq<u8>, pos: int, a: Seq<u8>, b: Seq<u8>)
    requires
        region_match(input, pos, a + b),
    ensures
        region_match(input, pos, a),
        region_match(input, pos + a.len(), b),
{
    let whole = input.subrange(pos, pos + (a + b).len() as int);
    assert(input.subrange(pos, pos + a.len() as int) =~= a) by {
        assert(forall|t: int|
            0 <= t < a.len() ==> #[trigger] input.subrange(pos, pos + a.len() as int)[t]
                == whole[t]);
    }
    assert(input.subrange(pos + a.len(), pos + a.len() + b.len() as int) =~= b) by {
        assert(forall|t: int|
            0 <= t < b.len() ==> #[trigger] input.subrange(
                pos + a.len(),
                pos + a.len() + b.len() as int,
            )[t] == whole[a.len() + t]);
    }
}

pub proof fn lemma_region_join(input: Seq<u8>, pos: int, a: Seq<u8>, b: Seq<u8>)
    requires
        region_match(input, pos, a),
        region_match(input, pos + a.len(), b),
    ensures
        region_match(input, pos, a + b),
{
    assert(input.subrange(pos, pos + (a + b).len() as int) =~= a + b) by {
        assert(forall|t: int|
            0 <= t < a.len() ==> #[trigger] (a + b)[t] == input.subrange(
                pos,
                pos + a.len() as int,
            )[t]);
        assert(forall|t: int|
            a.len() <= t < (a + b).len() ==> #[trigger] (a + b)[t] == input.subrange(
                pos + a.len(),
                pos + a.len() + b.len() as int,
            )[t - a.len()]);
    }
}

/// `true` / `false` as bytes.
pub open spec fn spec_json_bool(b: bool) -> Seq<u8> {
    if b {
        seq![116u8, 114u8, 117u8, 101u8]
    } else {
        seq![102u8, 97u8, 108u8, 115u8, 101u8]
    }
}

pub fn lit_true() -> (r: Vec<u8>)
    ensures
        r@ == spec_json_bool(true),
{
    let mut v: Vec<u8> = Vec::new();
    v.push(116);
    v.push(114);
    v.push(117);
    v.push(101);
    assert(v@ =~= spec_json_bool(true));
    v
}

pub fn lit_false() -> (r: Vec<u8>)
    ensures
        r@ == spec_json_bool(false),
{
    let mut v: Vec<u8> = Vec::new();
    v.push(102);
    v.push(97);
    v.push(108);
    v.push(115);
    v.push(101);
    assert(v@ =~= spec_json_bool(false));
    v
}

/// The literal `{"token":` as bytes.
pub open spec fn spec_lit_obj_token() -> Seq<u8> {
    seq![123u8, 34u8, 116u8, 111u8, 107u8, 101u8, 110u8, 34u8, 58u8]
}

pub fn lit_obj_token() -> (r: Vec<u8>)
    ensures
        r@ == spec_lit_obj_token(),
{
    let mut v: Vec<u8> = Vec::new();
    v.push(123);
    v.push(34);
    v.push(116);
    v.push(111);
    v.push(107);
    v.push(101);
    v.push(110);
    v.push(34);
    v.push(58);
    assert(v@ =~= spec_lit_obj_token());
    v
}

/// The literal `,"clientId":` as bytes.
pub open spec fn spec_lit_field_client_id() -> Seq<u8> {
    seq![44u8, 34u8, 99u8, 108u8, 105u8, 101u8, 110u8, 116u8, 73u8, 100u8, 34u8, 58u8]
}

pub fn lit_field_client_id() -> (r: Vec<u8>)
    ensures
        r@ == spec_lit_field_client_id(),
{
    let mut v: Vec<u8> = Vec::new();
    v.push(44);
    v.push(34);
    v.push(99);
    v.push(108);
    v.push(105);
    v.push(101);
    v.push(110);
    v.push(116);
    v.push(73);
    v.push(100);
    v.push(34);
    v.push(58);
    assert(v@ =~= spec_lit_field_client_id());
    v
}

/// The literal `{"success":` as bytes.
pub open spec fn spec_lit_obj_success() -> Seq<u8> {
    seq![123u8, 34u8, 115u8, 117u8, 99u8, 99u8, 101u8, 115u8, 115u8, 34u8, 58u8]
}

pub fn lit_obj_success() -> (r: Vec<u8>)
    ensures
        r@ == spec_lit_obj_success(),
{
    let mut v: Vec<u8> = Vec::new();
    v.push(123);
    v.push(34);
    v.push(115);
    v.push(117);
    v.push(99);
    v.push(99);
    v.push(101);
    v.push(115);
    v.push(115);
    v.push(34);
    v.push(58);
    assert(v@ =~= spec_lit_obj_success());
    v
}

/// The literal `,"message":` as bytes.
pub open spec fn spec_lit_field_message() -> Seq<u8> {
    seq![44u8, 34u8, 109u8, 101u8, 115u8, 115u8, 97u8, 103u8, 101u8, 34u8, 58u8]
}

pub fn lit_field_message() -> (r: Vec<u8>)
    ensures
        r@ == spec_lit_field_message(),
{
    let mut v: Vec<u8> = Vec::new();
    v.push(44);
    v.push(34);
    v.push(109);
    v.push(101);
    v.push(115);
    v.push(115);
    v.push(97);
    v.push(103);
    v.push(101);
    v.push(34);
    v.push(58);
    assert(v@ =~= spec_lit_field_message());
    v
}

/// The literal `,"sessionId":` as bytes.
pub open spec fn spec_lit_field_session_id() -> Seq<u8> {
    seq![44u8, 34u8, 115u8, 101u8, 115u8, 115u8, 105u8, 111u8, 110u8, 73u8, 100u8, 34u8, 58u8]
}

pub fn lit_field_session_id() -> (r: Vec<u8>)
    ensures
        r@ == spec_lit_field_session_id(),
{
    let mut v: Vec<u8> = Vec::new();
    v.push(44);
    v.push(34);
    v.push(115);
    v.push(101);
    v.push(115);
    v.push(115);
    v.push(105);
    v.push(111);
    v.push(110);
    v.push(73);
    v.push(100);
    v.push(34);
    v.push(58);
    assert(v@ =~= spec_lit_field_session_id());
    v
}

/// The literal `{"targetAddr":` as bytes.
pub open spec fn spec_lit_obj_target_addr() -> Seq<u8> {
    seq![123u8, 34u8, 116u8, 97u8, 114u8, 103u8, 101u8, 116u8, 65u8, 100u8, 100u8, 114u8, 34u8, 58u8]
}

pub fn lit_obj_target_addr() -> (r: Vec<u8>)
    ensures
        r@ == spec_lit_obj_target_addr(),
{
    let mut v: Vec<u8> = Vec::new();
    v.push(123);
    v.push(34);
    v.push(116);
    v.push(97);
    v.push(114);
    v.push(103);
    v.push(101);
    v.push(116);
    v.push(65);
    v.push(100);
    v.push(100);
    v.push(114);
    v.push(34);
    v.push(58);
    assert(v@ =~= spec_lit_obj_target_addr());
    v
}

/// The literal `null` as bytes.
pub open spec fn spec_lit_null() -> Seq<u8> {
    seq![110u8, 117u8, 108u8, 108u8]
}

pub fn lit_null() -> (r: Vec<u8>)
    ensures
        r@ == spec_lit_null(),
{
    let mut v: Vec<u8> = Vec::new();
    v.push(110);
    v.push(117);
    v.push(108);
    v.push(108);
    assert(v@ =~= spec_lit_null());
    v
}

/// The literal `}` as bytes.
pub open spec fn spec_lit_close_brace() -> Seq<u8> {
    seq![125u8]
}

pub fn lit_close_brace() -> (r: Vec<u8>)
    ensures
        r@ == spec_lit_close_brace(),
{
    let mut v: Vec<u8> = Vec::new();
    v.push(125);
    assert(v@ =~= spec_lit_close_brace());
    v
}

/// A string field, or JSON `null`: how an optional string is written.
pub open spec fn spec_json_opt_string(v: Option<Seq<char>>) -> Seq<u8> {
    match v {
        Some(s) => spec_json_string(s),
        None => spec_lit_null(),
    }
}

/// Parses a JSON string token as a field: the characters and the position
/// after the token. Exactly one canonical token can sit at a given position.
pub fn parse_string_field(input: &Vec<u8>, pos: usize) -> (r: Option<(String, usize)>)
    ensures
        match r {
            Some(v) => {
                &&& pos < v.1 <= input@.len()
                &&& region_match(input@, pos as int, spec_json_string(v.0@))
                &&& v.1 == pos + spec_json_string(v.0@).len()
                &&& forall|s: Seq<char>|
                    region_match(input@, pos as int, spec_json_string(s)) ==> s == v.0@
            },
            None => forall|s: Seq<char>| !region_match(input@, pos as int, spec_json_string(s)),
        },
{
    broadcast use vstd::utf8::decode_utf8_encode_utf8, vstd::utf8::encode_utf8_decode_utf8, vstd::utf8::encode_utf8_valid_utf8;

    let r = parse_json_string(input, pos);
    match r {
        Some((t, e)) => {
            proof {
                let p = spec_string_token_at(input@, pos as int).unwrap();
                lemma_string_token_sound(input@, pos as int, p.0, p.1);
                assert(region_match(input@, pos as int, spec_json_string(t@)));
                assert forall|s: Seq<char>|
                    region_match(input@, pos as int, spec_json_string(s)) implies s == t@ by {
                    lemma_string_token_complete(input@, pos as int, s);
                    assert(encode_utf8(s) == p.0);
                }
            }
            Some((t, e))
        },
        None => {
            proof {
                assert forall|s: Seq<char>|
                    !region_match(input@, pos as int, spec_json_string(s)) by {
                    if region_match(input@, pos as int, spec_json_string(s)) {
                        lemma_string_token_complete(input@, pos as int, s);
                    }
                }
            }
            None
        },
    }
}

/// Parses a JSON boolean field.
pub fn parse_bool_field(input: &Vec<u8>, pos: usize) -> (r: Option<(bool, usize)>)
    ensures
        match r {
            Some(v) => {
                &&& pos < v.1 <= input@.len()
                &&& region_match(input@, pos as int, spec_json_bool(v.0))
                &&& v.1 == pos + spec_json_bool(v.0).len()
                &&& forall|b: bool| region_match(input@, pos as int, spec_json_bool(b)) ==> b == v.0
            },
            None => forall|b: bool| !region_match(input@, pos as int, spec_json_bool(b)),
        },
{
    proof {
        assert forall|b: bool|
            region_match(input@, pos as int, spec_json_bool(b)) implies input@[pos as int]
            == spec_json_bool(b)[0] by {
            assert(input@.subrange(pos as int, pos as int + spec_json_bool(b).len() as int)[0]
                == input@[pos as int]);
        }
    }
    let t = lit_true();
    match expect_bytes(input, pos, &t) {
        Some(e) => {
            proof {
                assert(input@.subrange(pos as int, pos as int + 4)[0] == input@[pos as int]);
            }
            Some((true, e))
        },
        None => {
            let f = lit_false();
            match expect_bytes(input, pos, &f) {
                Some(e) => {
                    proof {
                        assert(input@.subrange(pos as int, pos as int + 5)[0]
                            == input@[pos as int]);
                    }
                    Some((false, e))
                },
                None => None,
            }
        },
    }
}

/// Parses an optional string field: JSON `null` or a string token.
pub fn parse_opt_string_field(input: &Vec<u8>, pos: usize) -> (r: Option<(Option<String>, usize)>)
    ensures
        match r {
            Some(v) => {
                &&& pos < v.1 <= input@.len()
                &&& region_match(
                    input@,
                    pos as int,
                    spec_json_opt_string(
                        match v.0 {
                            Some(s) => Some(s@),
                            None => None,
                        },
                    ),
                )
                &&& v.1 == pos + spec_json_opt_string(
                    match v.0 {
                        Some(s) => Some(s@),
                        None => None,
                    },
                ).len()
                &&& forall|o: Option<Seq<char>>|
                    region_match(input@, pos as int, spec_json_opt_string(o)) ==> o == (match v.0 {
                        Some(s) => Some(s@),
                        None => None::<Seq<char>>,
                    })
            },
            None => forall|o: Option<Seq<char>>|
                !region_match(input@, pos as int, spec_json_opt_string(o)),
        },
{
    let nl = lit_null();
    match expect_bytes(input, pos, &nl) {
        Some(e) => {
            proof {
                assert forall|o: Option<Seq<char>>|
                    region_match(input@, pos as int, spec_json_opt_string(o)) implies o
                    == None::<Seq<char>> by {
                    match o {
                        Some(s) => {
                            assert(input@[pos as int] == spec_lit_null()[0]);
                            assert(input@[pos as int] == spec_json_string(s)[0]);
                        },
                        None => {},
                    }
                }
            }
            Some((None, e))
        },
        None => {
            match parse_string_field(input, pos) {
                Some((s, e)) => {
                    proof {
                        assert forall|o: Option<Seq<char>>|
                            region_match(input@, pos as int, spec_json_opt_string(o)) implies o
                            == Some(s@) by {
                            if o is None {
                                assert(input@[pos as int] == spec_lit_null()[0]);
                                assert(input@[pos as int] == spec_json_string(s@)[0]);
                            }
                        }
                    }
                    Some((Some(s), e))
                },
                None => {
                    proof {
                        assert forall|o: Option<Seq<char>>|
                            !region_match(input@, pos as int, spec_json_opt_string(o)) by {
                            if region_match(input@, pos as int, spec_json_opt_string(o)) {
                                match o {
                                    Some(s) => {
                                        assert(!region_match(
                                            input@,
                                            pos as int,
                                            spec_json_string(s),
                                        ));
                                    },
                                    None => {},
                                }
                            }
                        }
                    }
                    None
                },
            }
        },
    }
}

} // verus!

verus! {

/// First message on a tunnel: the shared secret and a fresh client
/// identifier.
#[derive(Debug, Clone, PartialEq, Eq)]
pub struct HandshakeRequest {
    /// The long-lived shared secret authenticating the tunnel.
    pub token: String,
    /// A fresh random identifier for this connection.
    pub client_id: String,
}

#[verifier::ext_equal]
pub struct HandshakeRequestView {
    pub token: Seq<char>,
    pub client_id: Seq<char>,
}

impl View for HandshakeRequest {
    type V = HandshakeRequestView;

    open spec fn view(&self) -> HandshakeRequestView {
        HandshakeRequestView { token: self.token@, client_id: self.client_id@ }
    }
}

/// `{"token":<token>,"clientId":<clientId>}`
pub open spec fn spec_handshake_request_json(v: HandshakeRequestView) -> Seq<u8> {
    spec_lit_obj_token() + spec_json_string(v.token) + spec_lit_field_client_id()
        + spec_json_string(v.client_id) + spec_lit_close_brace()
}

/// Writes the canonical wire form of a handshake request.
pub fn encode_handshake_request(m: &HandshakeRequest) -> (out: Vec<u8>)
    ensures
        out@ == spec_handshake_request_json(m@),
{
    let mut out = lit_obj_token();
    append_json_string(&mut out, m.token.as_str());
    let mut l = lit_field_client_id();
    out.append(&mut l);
    append_json_string(&mut out, m.client_id.as_str());
    let mut c = lit_close_brace();
    out.append(&mut c);
    assert(out@ =~= spec_handshake_request_json(m@));
    out
}

/// Parses a handshake request sitting at `pos`; exactly the canonical form
/// of exactly one message is accepted.
pub fn parse_handshake_request_at(input: &Vec<u8>, pos: usize) -> (r: Option<
    (HandshakeRequest, usize),
>)
    ensures
        match r {
            Some(v) => {
                &&& pos < v.1 <= input@.len()
                &&& region_match(input@, pos as int, spec_handshake_request_json(v.0@))
                &&& v.1 == pos + spec_handshake_request_json(v.0@).len()
                &&& forall|w: HandshakeRequestView|
                    region_match(input@, pos as int, spec_handshake_request_json(w)) ==> w == v.0@
            },
            None => forall|w: HandshakeRequestView|
                !region_match(input@, pos as int, spec_handshake_request_json(w)),
        },
{
    let ghost iv = input@;
    proof {
        assert forall|w: HandshakeRequestView|
            region_match(iv, pos as int, spec_handshake_request_json(w)) implies {
            &&& region_match(iv, pos as int, spec_lit_obj_token())
            &&& region_match(
                iv,
                pos + spec_lit_obj_token().len(),
                spec_json_string(w.token),
            )
            &&& region_match(
                iv,
                pos + spec_lit_obj_token().len() + spec_json_string(w.token).len(),
                spec_lit_field_client_id(),
            )
            &&& region_match(
                iv,
                pos + spec_lit_obj_token().len() + spec_json_string(w.token).len()
                    + spec_lit_field_client_id().len(),
                spec_json_string(w.client_id),
            )
            &&& region_match(
                iv,
                pos + spec_lit_obj_token().len() + spec_json_string(w.token).len()
                    + spec_lit_field_client_id().len() + spec_json_string(w.client_id).len(),
                spec_lit_close_brace(),
            )
        } by {
            let a1 = spec_lit_obj_token();
            let a2 = spec_json_string(w.token);
            let a3 = spec_lit_field_client_id();
            let a4 = spec_json_string(w.client_id);
            let a5 = spec_lit_close_brace();
            lemma_region_split(iv, pos as int, a1 + a2 + a3 + a4, a5);
            lemma_region_split(iv, pos as int, a1 + a2 + a3, a4);
            lemma_region_split(iv, pos as int, a1 + a2, a3);
            lemma_region_split(iv, pos as int, a1, a2);
        }
    }
    let l1 = lit_obj_token();
    let p1 = match expect_bytes(input, pos, &l1) {
        Some(p) => p,
        None => {
            return None;
        },
    };
    let (token, p2) = match parse_string_field(input, p1) {
        Some(v) => v,
        None => {
            return None;
        },
    };
    let l2 = lit_field_client_id();
    let p3 = match expect_bytes(input, p2, &l2) {
        Some(p) => p,
        None => {
            return None;
        },
    };
    let (client_id, p4) = match parse_string_field(input, p3) {
        Some(v) => v,
        None => {
            return None;
        },
    };
    let l3 = lit_close_brace();
    let p5 = match expect_bytes(input, p4, &l3) {
        Some(p) => p,
        None => {
            return None;
        },
    };
    let m = HandshakeRequest { token, client_id };
    proof {
        lemma_region_join(iv, pos as int, spec_lit_obj_token(), spec_json_string(m@.token));
        lemma_region_join(
            iv,
            pos as int,
            spec_lit_obj_token() + spec_json_string(m@.token),
            spec_lit_field_client_id(),
        );
        lemma_region_join(
            iv,
            pos as int,
            spec_lit_obj_token() + spec_json_string(m@.token) + spec_lit_field_client_id(),
            spec_json_string(m@.client_id),
        );
        lemma_region_join(
            iv,
            pos as int,
            spec_lit_obj_token() + spec_json_string(m@.token) + spec_lit_field_client_id()
                + spec_json_string(m@.client_id),
            spec_lit_close_brace(),
        );
        assert forall|w: HandshakeRequestView|
            region_match(iv, pos as int, spec_handshake_request_json(w)) implies w == m@ by {
            assert(w.token == m@.token);
            assert(w.client_id == m@.client_id);
            assert(w =~= m@);
        }
    }
    Some((m, p5))
}

} // verus!


verus! {

/// The server's answer to a handshake: whether the token was accepted, a
/// human-readable message, and the fresh session identifier on success.
#[derive(Debug, Clone, PartialEq, Eq)]
pub struct HandshakeResponse {
    /// Whether the handshake succeeded.
    pub success: bool,
    /// Why it succeeded or failed.
    pub message: String,
    /// The session identifier; present exactly on success.
    pub session_id: Option<String>,
}

#[verifier::ext_equal]
pub struct HandshakeResponseView {
    pub success: bool,
    pub message: Seq<char>,
    pub session_id: Option<Seq<char>>,
}

impl View for HandshakeResponse {
    type V = HandshakeResponseView;

    open spec fn view(&self) -> HandshakeResponseView {
        HandshakeResponseView { success: self.success, message: self.message@, session_id: match self.session_id {
                Some(s) => Some(s@),
                None => None,
            } }
    }
}

pub open spec fn spec_handshake_response_json(v: HandshakeResponseView) -> Seq<u8> {
    spec_lit_obj_success() + spec_json_bool(v.success) + spec_lit_field_message() + spec_json_string(v.message) + spec_lit_field_session_id() + spec_json_opt_string(v.session_id) + spec_lit_close_brace()
}

/// Writes the canonical wire form.
pub fn encode_handshake_response(m: &HandshakeResponse) -> (out: Vec<u8>)
    ensures
        out@ == spec_handshake_response_json(m@),
{
    let mut out = lit_obj_success();
    if m.success {
        let mut b0 = lit_true();
        out.append(&mut b0);
    } else {
        let mut b0 = lit_false();
        out.append(&mut b0);
    }
    let mut l1 = lit_field_message();
    out.append(&mut l1);
    append_json_string(&mut out, m.message.as_str());
    let mut l2 = lit_field_session_id();
    out.append(&mut l2);
    match &m.session_id {
        Some(s) => {
            append_json_string(&mut out, s.as_str());
        },
        None => {
            let mut n2 = lit_null();
            out.append(&mut n2);
        },
    }
    let mut c = lit_close_brace();
    out.append(&mut c);
    assert(out@ =~= spec_handshake_response_json(m@));
    out
}

/// Parses the message sitting at `pos`; exactly the canonical form of
/// exactly one message is accepted.
pub fn parse_handshake_response_at(input: &Vec<u8>, pos: usize) -> (r: Option<(HandshakeResponse, usize)>)
    ensures
        match r {
            Some(v) => {
                &&& pos < v.1 <= input@.len()
                &&& region_match(input@, pos as int, spec_handshake_response_json(v.0@))
                &&& v.1 == pos + spec_handshake_response_json(v.0@).len()
                &&& forall|w: HandshakeResponseView|
                    region_match(input@, pos as int, spec_handshake_response_json(w)) ==> w == v.0@
            },
            None => forall|w: HandshakeResponseView|
                !region_match(input@, pos as int, spec_handshake_response_json(w)),
        },
{
    let ghost iv = input@;
    proof {
        assert forall|w: HandshakeResponseView|
            region_match(iv, pos as int, spec_handshake_response_json(w)) implies {
            &&& region_match(iv, pos as int, spec_lit_obj_success())
            &&& region_match(iv, pos as int + spec_lit_obj_success().len(), spec_json_bool(w.success))
            &&& region_match(iv, pos as int + spec_lit_obj_success().len() + spec_json_bool(w.success).len(), spec_lit_field_message())
            &&& region_match(iv, pos as int + spec_lit_obj_success().len() + spec_json_bool(w.success).len() + spec_lit_field_message().len(), spec_json_string(w.message))
            &&& region_match(iv, pos as int + spec_lit_obj_success().len() + spec_json_bool(w.success).len() + spec_lit_field_message().len() + spec_json_string(w.message).len(), spec_lit_field_session_id())
            &&& region_match(iv, pos as int + spec_lit_obj_success().len() + spec_json_bool(w.success).len() + spec_lit_field_message().len() + spec_json_string(w.message).len() + spec_lit_field_session_id().len(), spec_json_opt_string(w.session_id))
            &&& region_match(iv, pos as int + spec_lit_obj_success().len() + spec_json_bool(w.success).len() + spec_lit_field_message().len() + spec_json_string(w.message).len() + spec_lit_field_session_id().len() + spec_json_opt_string(w.session_id).len(), spec_lit_close_brace())
        } by {
            let a0 = spec_lit_obj_success();
            let a1 = spec_json_bool(w.success);
            let a2 = spec_lit_field_message();
            let a3 = spec_json_string(w.message);
            let a4 = spec_lit_field_session_id();
            let a5 = spec_json_opt_string(w.session_id);
            let a6 = spec_lit_close_brace();
            lemma_region_split(iv, pos as int, a0 + a1 + a2 + a3 + a4 + a5, a6);
            lemma_region_split(iv, pos as int, a0 + a1 + a2 + a3 + a4, a5);
            lemma_region_split(iv, pos as int, a0 + a1 + a2 + a3, a4);
            lemma_region_split(iv, pos as int, a0 + a1 + a2, a3);
            lemma_region_split(iv, pos as int, a0 + a1, a2);
            lemma_region_split(iv, pos as int, a0, a1);
        }
    }
    let l0 = lit_obj_success();
    let p0 = match expect_bytes(input, pos, &l0) {
        Some(p) => p,
        None => {
            return None;
        },
    };
    let (success, p1) = match parse_bool_field(input, p0) {
        Some(v) => v,
        None => {
            return None;
        },
    };
    let l2 = lit_field_message();
    let q2 = match expect_bytes(input, p1, &l2) {
        Some(p) => p,
        None => {
            return None;
        },
    };
    let (message, p3) = match parse_string_field(input, q2) {
        Some(v) => v,
        None => {
            return None;
        },
    };
    let l4 = lit_field_session_id();
    let q4 = match expect_bytes(input, p3, &l4) {
        Some(p) => p,
        None => {
            return None;
        },
    };
    let (session_id, p5) = match parse_opt_string_field(input, q4) {
        Some(v) => v,
        None => {
            return None;
        },
    };
    let lc = lit_close_brace();
    let pe = match expect_bytes(input, p5, &lc) {
        Some(p) => p,
        None => {
            return None;
        },
    };
    let m = HandshakeResponse { success, message, session_id };
    proof {
        lemma_region_join(iv, pos as int, spec_lit_obj_success(), spec_json_bool(m@.success));
        lemma_region_join(iv, pos as int, spec_lit_obj_success() + spec_json_bool(m@.success), spec_lit_field_message());
        lemma_region_join(iv, pos as int, spec_lit_obj_success() + spec_json_bool(m@.success) + spec_lit_field_message(), spec_json_string(m@.message));
        lemma_region_join(iv, pos as int, spec_lit_obj_success() + spec_json_bool(m@.success) + spec_lit_field_message() + spec_json_string(m@.message), spec_lit_field_session_id());
        lemma_region_join(iv, pos as int, spec_lit_obj_success() + spec_json_bool(m@.success) + spec_lit_field_message() + spec_json_string(m@.message) + spec_lit_field_session_id(), spec_json_opt_string(m@.session_id));
        lemma_region_join(iv, pos as int, spec_lit_obj_success() + spec_json_bool(m@.success) + spec_lit_field_message() + spec_json_string(m@.message) + spec_lit_field_session_id() + spec_json_opt_string(m@.session_id), spec_lit_close_brace());
        assert forall|w: HandshakeResponseView|
            region_match(iv, pos as int, spec_handshake_response_json(w)) implies w == m@ by {
            assert(w.success == m@.success);
            assert(w.message == m@.message);
            assert(w.session_id == m@.session_id);
            assert(w =~= m@);
        }
    }
    Some((m, pe))
}

/// Asks the remote peer to dial a target, formatted `host:port`.
#[derive(Debug, Clone, PartialEq, Eq)]
pub struct ProxyRequest {
    /// The target to dial, formatted `host:port`.
    pub target_addr: String,
}

#[verifier::ext_equal]
pub struct ProxyRequestView {
    pub target_addr: Seq<char>,
}

impl View for ProxyRequest {
    type V = ProxyRequestView;

    open spec fn view(&self) -> ProxyRequestView {
        ProxyRequestView { target_addr: self.target_addr@ }
    }
}

pub open spec fn spec_proxy_request_json(v: ProxyRequestView) -> Seq<u8> {
    spec_lit_obj_target_addr() + spec_json_string(v.target_addr) + spec_lit_close_brace()
}

/// Writes the canonical wire form.
pub fn encode_proxy_request(m: &ProxyRequest) -> (out: Vec<u8>)
    ensures
        out@ == spec_proxy_request_json(m@),
{
    let mut out = lit_obj_target_addr();
    append_json_string(&mut out, m.target_addr.as_str());
    let mut c = lit_close_brace();
    out.append(&mut c);
    assert(out@ =~= spec_proxy_request_json(m@));
    out
}

/// Parses the message sitting at `pos`; exactly the canonical form of
/// exactly one message is accepted.
pub fn parse_proxy_request_at(input: &Vec<u8>, pos: usize) -> (r: Option<(ProxyRequest, usize)>)
    ensures
        match r {
            Some(v) => {
                &&& pos < v.1 <= input@.len()
                &&& region_match(input@, pos as int, spec_proxy_request_json(v.0@))
                &&& v.1 == pos + spec_proxy_request_json(v.0@).len()
                &&& forall|w: ProxyRequestView|
                    region_match(input@, pos as int, spec_proxy_request_json(w)) ==> w == v.0@
            },
            None => forall|w: ProxyRequestView|
                !region_match(input@, pos as int, spec_proxy_request_json(w)),
        },
{
    let ghost iv = input@;
    proof {
        assert forall|w: ProxyRequestView|
            region_match(iv, pos as int, spec_proxy_request_json(w)) implies {
            &&& region_match(iv, pos as int, spec_lit_obj_target_addr())
            &&& region_match(iv, pos as int + spec_lit_obj_target_addr().len(), spec_json_string(w.target_addr))
            &&& region_match(iv, pos as int + spec_lit_obj_target_addr().len() + spec_json_string(w.target_addr).len(), spec_lit_close_brace())
        } by {
            let a0 = spec_lit_obj_target_addr();
            let a1 = spec_json_string(w.target_addr);
            let a2 = spec_lit_close_brace();
            lemma_region_split(iv, pos as int, a0 + a1, a2);
            lemma_region_split(iv, pos as int, a0, a1);
        }
    }
    let l0 = lit_obj_target_addr();
    let p0 = match expect_bytes(input, pos, &l0) {
        Some(p) => p,
        None => {
            return None;
        },
    };
    let (target_addr, p1) = match parse_string_field(input, p0) {
        Some(v) => v,
        None => {
            return None;
        },
    };
    let lc = lit_close_brace();
    let pe = match expect_bytes(input, p1, &lc) {
        Some(p) => p,
        None => {
            return None;
        },
    };
    let m = ProxyRequest { target_addr };
    proof {
        lemma_region_join(iv, pos as int, spec_lit_obj_target_addr(), spec_json_string(m@.target_addr));
        lemma_region_join(iv, pos as int, spec_lit_obj_target_addr() + spec_json_string(m@.target_addr), spec_lit_close_brace());
        assert forall|w: ProxyRequestView|
            region_match(iv, pos as int, spec_proxy_request_json(w)) implies w == m@ by {
            assert(w.target_addr == m@.target_addr);
            assert(w =~= m@);
        }
    }
    Some((m, pe))
}

/// The remote peer's answer to a proxy request: whether the dial succeeded.
#[derive(Debug, Clone, PartialEq, Eq)]
pub struct ProxyResponse {
    /// Whether the dial succeeded.
    pub success: bool,
    /// Why it succeeded or failed.
    pub message: String,
}

#[verifier::ext_equal]
pub struct ProxyResponseView {
    pub success: bool,
    pub message: Seq<char>,
}

impl View for ProxyResponse {
    type V = ProxyResponseView;

    open spec fn view(&self) -> ProxyResponseView {
        ProxyResponseView { success: self.success, message: self.message@ }
    }
}

pub open spec fn spec_proxy_response_json(v: ProxyResponseView) -> Seq<u8> {
    spec_lit_obj_success() + spec_json_bool(v.success) + spec_lit_field_message() + spec_json_string(v.message) + spec_lit_close_brace()
}

/// Writes the canonical wire form.
pub fn encode_proxy_response(m: &ProxyResponse) -> (out: Vec<u8>)
    ensures
        out@ == spec_proxy_response_json(m@),
{
    let mut out = lit_obj_success();
    if m.success {
        let mut b0 = lit_true();
        out.append(&mut b0);
    } else {
        let mut b0 = lit_false();
        out.append(&mut b0);
    }
    let mut l1 = lit_field_message();
    out.append(&mut l1);
    append_json_string(&mut out, m.message.as_str());
    let mut c = lit_close_brace();
    out.append(&mut c);
    assert(out@ =~= spec_proxy_response_json(m@));
    out
}

/// Parses the message sitting at `pos`; exactly the canonical form of
/// exactly one message is accepted.
pub fn parse_proxy_response_at(input: &Vec<u8>, pos: usize) -> (r: Option<(ProxyResponse, usize)>)
    ensures
        match r {
            Some(v) => {
                &&& pos < v.1 <= input@.len()
                &&& region_match(input@, pos as int, spec_proxy_response_json(v.0@))
                &&& v.1 == pos + spec_proxy_response_json(v.0@).len()
                &&& forall|w: ProxyResponseView|
                    region_match(input@, pos as int, spec_proxy_response_json(w)) ==> w == v.0@
            },
            None => forall|w: ProxyResponseView|
                !region_match(input@, pos as int, spec_proxy_response_json(w)),
        },
{
    let ghost iv = input@;
    proof {
        assert forall|w: ProxyResponseView|
            region_match(iv, pos as int, spec_proxy_response_json(w)) implies {
            &&& region_match(iv, pos as int, spec_lit_obj_success())
            &&& region_match(iv, pos as int + spec_lit_obj_success().len(), spec_json_bool(w.success))
            &&& region_match(iv, pos as int + spec_lit_obj_success().len() + spec_json_bool(w.success).len(), spec_lit_field_message())
            &&& region_match(iv, pos as int + spec_lit_obj_success().len() + spec_json_bool(w.success).len() + spec_lit_field_message().len(), spec_json_string(w.message))
            &&& region_match(iv, pos as int + spec_lit_obj_success().len() + spec_json_bool(w.success).len() + spec_lit_field_message().len() + spec_json_string(w.message).len(), spec_lit_close_brace())
        } by {
            let a0 = spec_lit_obj_success();
            let a1 = spec_json_bool(w.success);
            let a2 = spec_lit_field_message();
            let a3 = spec_json_string(w.message);
            let a4 = spec_lit_close_brace();
            lemma_region_split(iv, pos as int, a0 + a1 + a2 + a3, a4);
            lemma_region_split(iv, pos as int, a0 + a1 + a2, a3);
            lemma_region_split(iv, pos as int, a0 + a1, a2);
            lemma_region_split(iv, pos as int, a0, a1);
        }
    }
    let l0 = lit_obj_success();
    let p0 = match expect_bytes(input, pos, &l0) {
        Some(p) => p,
        None => {
            return None;
        },
    };
    let (success, p1) = match parse_bool_field(input, p0) {
        Some(v) => v,
        None => {
            return None;
        },
    };
    let l2 = lit_field_message();
    let q2 = match expect_bytes(input, p1, &l2) {
        Some(p) => p,
        None => {
            return None;
        },
    };
    let (message, p3) = match parse_string_field(input, q2) {
        Some(v) => v,
        None => {
            return None;
        },
    };
    let lc = lit_close_brace();
    let pe = match expect_bytes(input, p3, &lc) {
        Some(p) => p,
        None => {
            return None;
        },
    };
    let m = ProxyResponse { success, message };
    proof {
        lemma_region_join(iv, pos as int, spec_lit_obj_success(), spec_json_bool(m@.success));
        lemma_region_join(iv, pos as int, spec_lit_obj_success() + spec_json_bool(m@.success), spec_lit_field_message());
        lemma_region_join(iv, pos as int, spec_lit_obj_success() + spec_json_bool(m@.success) + spec_lit_field_message(), spec_json_string(m@.message));
        lemma_region_join(iv, pos as int, spec_lit_obj_success() + spec_json_bool(m@.success) + spec_lit_field_message() + spec_json_string(m@.message), spec_lit_close_brace());
        assert forall|w: ProxyResponseView|
            region_match(iv, pos as int, spec_proxy_response_json(w)) implies w == m@ by {
            assert(w.success == m@.success);
            assert(w.message == m@.message);
            assert(w =~= m@);
        }
    }
    Some((m, pe))
}

} // verus!
