//! The tagged envelopes of the message-oriented transport: every control and
//! data message travels as `{"type":<tag>,"data":<payload>}`, one envelope
//! per channel message, unencrypted at this layer.

use vstd::prelude::*;

use crate::json::{
    append_json_byte_array, append_json_string, expect_bytes, lemma_byte_array_complete,
    lemma_byte_array_sound, parse_json_byte_array, spec_byte_array_token_at, spec_json_byte_array,
    spec_json_string,
};
use crate::messages::{
    encode_handshake_request, encode_handshake_response, encode_proxy_request,
    encode_proxy_response, lemma_region_join, lemma_region_split, lit_close_brace,
    parse_handshake_request_at, parse_handshake_response_at, parse_proxy_request_at,
    parse_proxy_response_at, parse_string_field, region_match, spec_handshake_request_json,
    spec_handshake_response_json, spec_lit_close_brace, spec_proxy_request_json,
    spec_proxy_response_json, HandshakeRequest, HandshakeRequestView, HandshakeResponse,
    HandshakeResponseView, ProxyRequest, ProxyRequestView, ProxyResponse, ProxyResponseView,
};

verus! {

/// The literal `{"type":"Handshake","data":` as bytes.
pub open spec fn spec_lit_env_handshake() -> Seq<u8> {
    seq![123u8, 34u8, 116u8, 121u8, 112u8, 101u8, 34u8, 58u8, 34u8, 72u8, 97u8, 110u8, 100u8, 115u8, 104u8, 97u8, 107u8, 101u8, 34u8, 44u8, 34u8, 100u8, 97u8, 116u8, 97u8, 34u8, 58u8]
}

pub fn lit_env_handshake() -> (r: Vec<u8>)
    ensures
        r@ == spec_lit_env_handshake(),
{
    let mut v: Vec<u8> = Vec::new();
    v.push(123);
    v.push(34);
    v.push(116);
    v.push(121);
    v.push(112);
    v.push(101);
    v.push(34);
    v.push(58);
    v.push(34);
    v.push(72);
    v.push(97);
    v.push(110);
    v.push(100);
    v.push(115);
    v.push(104);
    v.push(97);
    v.push(107);
    v.push(101);
    v.push(34);
    v.push(44);
    v.push(34);
    v.push(100);
    v.push(97);
    v.push(116);
    v.push(97);
    v.push(34);
    v.push(58);
    assert(v@ =~= spec_lit_env_handshake());
    v
}

/// The literal `{"type":"HandshakeResponse","data":` as bytes.
pub open spec fn spec_lit_env_handshake_response() -> Seq<u8> {
    seq![123u8, 34u8, 116u8, 121u8, 112u8, 101u8, 34u8, 58u8, 34u8, 72u8, 97u8, 110u8, 100u8, 115u8, 104u8, 97u8, 107u8, 101u8, 82u8, 101u8, 115u8, 112u8, 111u8, 110u8, 115u8, 101u8, 34u8, 44u8, 34u8, 100u8, 97u8, 116u8, 97u8, 34u8, 58u8]
}

pub fn lit_env_handshake_response() -> (r: Vec<u8>)
    ensures
        r@ == spec_lit_env_handshake_response(),
{
    let mut v: Vec<u8> = Vec::new();
    v.push(123);
    v.push(34);
    v.push(116);
    v.push(121);
    v.push(112);
    v.push(101);
    v.push(34);
    v.push(58);
    v.push(34);
    v.push(72);
    v.push(97);
    v.push(110);
    v.push(100);
    v.push(115);
    v.push(104);
    v.push(97);
    v.push(107);
    v.push(101);
    v.push(82);
    v.push(101);
    v.push(115);
    v.push(112);
    v.push(111);
    v.push(110);
    v.push(115);
    v.push(101);
    v.push(34);
    v.push(44);
    v.push(34);
    v.push(100);
    v.push(97);
    v.push(116);
    v.push(97);
    v.push(34);
    v.push(58);
    assert(v@ =~= spec_lit_env_handshake_response());
    v
}

/// The literal `{"type":"ProxyRequest","data":` as bytes.
pub open spec fn spec_lit_env_proxy_request() -> Seq<u8> {
    seq![123u8, 34u8, 116u8, 121u8, 112u8, 101u8, 34u8, 58u8, 34u8, 80u8, 114u8, 111u8, 120u8, 121u8, 82u8, 101u8, 113u8, 117u8, 101u8, 115u8, 116u8, 34u8, 44u8, 34u8, 100u8, 97u8, 116u8, 97u8, 34u8, 58u8]
}

pub fn lit_env_proxy_request() -> (r: Vec<u8>)
    ensures
        r@ == spec_lit_env_proxy_request(),
{
    let mut v: Vec<u8> = Vec::new();
    v.push(123);
    v.push(34);
    v.push(116);
    v.push(121);
    v.push(112);
    v.push(101);
    v.push(34);
    v.push(58);
    v.push(34);
    v.push(80);
    v.push(114);
    v.push(111);
    v.push(120);
    v.push(121);
    v.push(82);
    v.push(101);
    v.push(113);
    v.push(117);
    v.push(101);
    v.push(115);
    v.push(116);
    v.push(34);
    v.push(44);
    v.push(34);
    v.push(100);
    v.push(97);
    v.push(116);
    v.push(97);
    v.push(34);
    v.push(58);
    assert(v@ =~= spec_lit_env_proxy_request());
    v
}

/// The literal `{"type":"ProxyResponse","data":` as bytes.
pub open spec fn spec_lit_env_proxy_response() -> Seq<u8> {
    seq![123u8, 34u8, 116u8, 121u8, 112u8, 101u8, 34u8, 58u8, 34u8, 80u8, 114u8, 111u8, 120u8, 121u8, 82u8, 101u8, 115u8, 112u8, 111u8, 110u8, 115u8, 101u8, 34u8, 44u8, 34u8, 100u8, 97u8, 116u8, 97u8, 34u8, 58u8]
}

pub fn lit_env_proxy_response() -> (r: Vec<u8>)
    ensures
        r@ == spec_lit_env_proxy_response(),
{
    let mut v: Vec<u8> = Vec::new();
    v.push(123);
    v.push(34);
    v.push(116);
    v.push(121);
    v.push(112);
    v.push(101);
    v.push(34);
    v.push(58);
    v.push(34);
    v.push(80);
    v.push(114);
    v.push(111);
    v.push(120);
    v.push(121);
    v.push(82);
    v.push(101);
    v.push(115);
    v.push(112);
    v.push(111);
    v.push(110);
    v.push(115);
    v.push(101);
    v.push(34);
    v.push(44);
    v.push(34);
    v.push(100);
    v.push(97);
    v.push(116);
    v.push(97);
    v.push(34);
    v.push(58);
    assert(v@ =~= spec_lit_env_proxy_response());
    v
}

/// The literal `{"type":"Data","data":` as bytes.
pub open spec fn spec_lit_env_data() -> Seq<u8> {
    seq![123u8, 34u8, 116u8, 121u8, 112u8, 101u8, 34u8, 58u8, 34u8, 68u8, 97u8, 116u8, 97u8, 34u8, 44u8, 34u8, 100u8, 97u8, 116u8, 97u8, 34u8, 58u8]
}

pub fn lit_env_data() -> (r: Vec<u8>)
    ensures
        r@ == spec_lit_env_data(),
{
    let mut v: Vec<u8> = Vec::new();
    v.push(123);
    v.push(34);
    v.push(116);
    v.push(121);
    v.push(112);
    v.push(101);
    v.push(34);
    v.push(58);
    v.push(34);
    v.push(68);
    v.push(97);
    v.push(116);
    v.push(97);
    v.push(34);
    v.push(44);
    v.push(34);
    v.push(100);
    v.push(97);
    v.push(116);
    v.push(97);
    v.push(34);
    v.push(58);
    assert(v@ =~= spec_lit_env_data());
    v
}

/// The literal `{"type":"Error","data":` as bytes.
pub open spec fn spec_lit_env_error() -> Seq<u8> {
    seq![123u8, 34u8, 116u8, 121u8, 112u8, 101u8, 34u8, 58u8, 34u8, 69u8, 114u8, 114u8, 111u8, 114u8, 34u8, 44u8, 34u8, 100u8, 97u8, 116u8, 97u8, 34u8, 58u8]
}

pub fn lit_env_error() -> (r: Vec<u8>)
    ensures
        r@ == spec_lit_env_error(),
{
    let mut v: Vec<u8> = Vec::new();
    v.push(123);
    v.push(34);
    v.push(116);
    v.push(121);
    v.push(112);
    v.push(101);
    v.push(34);
    v.push(58);
    v.push(34);
    v.push(69);
    v.push(114);
    v.push(114);
    v.push(111);
    v.push(114);
    v.push(34);
    v.push(44);
    v.push(34);
    v.push(100);
    v.push(97);
    v.push(116);
    v.push(97);
    v.push(34);
    v.push(58);
    assert(v@ =~= spec_lit_env_error());
    v
}

/// One message of the enveloped transport.
#[derive(Debug, Clone, PartialEq, Eq)]
pub enum WsMessage {
    /// A handshake request.
    Handshake(HandshakeRequest),
    /// A handshake response.
    HandshakeResponse(HandshakeResponse),
    /// A proxy request.
    ProxyRequest(ProxyRequest),
    /// A proxy response.
    ProxyResponse(ProxyResponse),
    /// A chunk of relayed bytes.
    Data(Vec<u8>),
    /// A fatal error report.
    Error(String),
}

#[verifier::ext_equal]
pub enum WsMessageView {
    Handshake(HandshakeRequestView),
    HandshakeResponse(HandshakeResponseView),
    ProxyRequest(ProxyRequestView),
    ProxyResponse(ProxyResponseView),
    Data(Seq<u8>),
    Error(Seq<char>),
}

impl View for WsMessage {
    type V = WsMessageView;

    open spec fn view(&self) -> WsMessageView {
        match self {
            WsMessage::Handshake(h) => WsMessageView::Handshake(h@),
            WsMessage::HandshakeResponse(h) => WsMessageView::HandshakeResponse(h@),
            WsMessage::ProxyRequest(p) => WsMessageView::ProxyRequest(p@),
            WsMessage::ProxyResponse(p) => WsMessageView::ProxyResponse(p@),
            WsMessage::Data(d) => WsMessageView::Data(d@),
            WsMessage::Error(e) => WsMessageView::Error(e@),
        }
    }
}

/// The canonical envelope of one message.
pub open spec fn spec_ws_message_json(v: WsMessageView) -> Seq<u8> {
    match v {
        WsMessageView::Handshake(h) => spec_lit_env_handshake() + spec_handshake_request_json(h)
            + spec_lit_close_brace(),
        WsMessageView::HandshakeResponse(h) => spec_lit_env_handshake_response()
            + spec_handshake_response_json(h) + spec_lit_close_brace(),
        WsMessageView::ProxyRequest(p) => spec_lit_env_proxy_request() + spec_proxy_request_json(p)
            + spec_lit_close_brace(),
        WsMessageView::ProxyResponse(p) => spec_lit_env_proxy_response()
            + spec_proxy_response_json(p) + spec_lit_close_brace(),
        WsMessageView::Data(d) => spec_lit_env_data() + spec_json_byte_array(d)
            + spec_lit_close_brace(),
        WsMessageView::Error(e) => spec_lit_env_error() + spec_json_string(e)
            + spec_lit_close_brace(),
    }
}

/// Writes the canonical envelope of `m`.
pub fn encode_ws_message(m: &WsMessage) -> (out: Vec<u8>)
    ensures
        out@ == spec_ws_message_json(m@),
{
    let mut out: Vec<u8>;
    match m {
        WsMessage::Handshake(h) => {
            out = lit_env_handshake();
            let mut p = encode_handshake_request(h);
            out.append(&mut p);
        },
        WsMessage::HandshakeResponse(h) => {
            out = lit_env_handshake_response();
            let mut p = encode_handshake_response(h);
            out.append(&mut p);
        },
        WsMessage::ProxyRequest(p0) => {
            out = lit_env_proxy_request();
            let mut p = encode_proxy_request(p0);
            out.append(&mut p);
        },
        WsMessage::ProxyResponse(p0) => {
            out = lit_env_proxy_response();
            let mut p = encode_proxy_response(p0);
            out.append(&mut p);
        },
        WsMessage::Data(d) => {
            out = lit_env_data();
            append_json_byte_array(&mut out, d);
        },
        WsMessage::Error(e) => {
            out = lit_env_error();
            append_json_string(&mut out, e.as_str());
        },
    }
    let mut c = lit_close_brace();
    out.append(&mut c);
    assert(out@ =~= spec_ws_message_json(m@));
    out
}

/// Parses a JSON byte-array field; exactly one canonical array can sit at a
/// given position.
pub fn parse_byte_array_field(input: &Vec<u8>, pos: usize) -> (r: Option<(Vec<u8>, usize)>)
    ensures
        match r {
            Some(v) => {
                &&& pos < v.1 <= input@.len()
                &&& region_match(input@, pos as int, spec_json_byte_array(v.0@))
                &&& v.1 == pos + spec_json_byte_array(v.0@).len()
                &&& forall|s: Seq<u8>|
                    region_match(input@, pos as int, spec_json_byte_array(s)) ==> s == v.0@
            },
            None => forall|s: Seq<u8>| !region_match(input@, pos as int, spec_json_byte_array(s)),
        },
{
    let r = parse_json_byte_array(input, pos);
    match r {
        Some((d, e)) => {
            proof {
                let p = spec_byte_array_token_at(input@, pos as int).unwrap();
                lemma_byte_array_sound(input@, pos as int, p.0, p.1);
                assert(region_match(input@, pos as int, spec_json_byte_array(d@)));
                assert forall|s: Seq<u8>|
                    region_match(input@, pos as int, spec_json_byte_array(s)) implies s == d@ by {
                    lemma_byte_array_complete(input@, pos as int, s);
                }
            }
            Some((d, e))
        },
        None => {
            proof {
                assert forall|s: Seq<u8>|
                    !region_match(input@, pos as int, spec_json_byte_array(s)) by {
                    if region_match(input@, pos as int, spec_json_byte_array(s)) {
                        lemma_byte_array_complete(input@, pos as int, s);
                    }
                }
            }
            None
        },
    }
}

/// Two byte sequences that disagree somewhere cannot both sit at the start
/// of the same input.
proof fn lemma_distinct_prefixes(input: Seq<u8>, a: Seq<u8>, b: Seq<u8>, k: int)
    requires
        0 <= k < a.len(),
        k < b.len(),
        a[k] != b[k],
        region_match(input, 0, a),
    ensures
        !region_match(input, 0, b),
{
    if region_match(input, 0, b) {
        assert(input.subrange(0, a.len() as int)[k] == input[k]);
        assert(input.subrange(0, b.len() as int)[k] == input[k]);
    }
}

/// The tag literal at the start of any envelope of the given variant.
pub open spec fn spec_ws_tag(v: WsMessageView) -> Seq<u8> {
    match v {
        WsMessageView::Handshake(_) => spec_lit_env_handshake(),
        WsMessageView::HandshakeResponse(_) => spec_lit_env_handshake_response(),
        WsMessageView::ProxyRequest(_) => spec_lit_env_proxy_request(),
        WsMessageView::ProxyResponse(_) => spec_lit_env_proxy_response(),
        WsMessageView::Data(_) => spec_lit_env_data(),
        WsMessageView::Error(_) => spec_lit_env_error(),
    }
}

/// Any envelope starts with its variant's tag.
proof fn lemma_ws_tag_prefix(input: Seq<u8>, w: WsMessageView)
    requires
        region_match(input, 0, spec_ws_message_json(w)),
    ensures
        region_match(input, 0, spec_ws_tag(w)),
{
    match w {
        WsMessageView::Handshake(h) => {
            lemma_region_split(
                input,
                0,
                spec_lit_env_handshake() + spec_handshake_request_json(h),
                spec_lit_close_brace(),
            );
            lemma_region_split(input, 0, spec_lit_env_handshake(), spec_handshake_request_json(h));
        },
        WsMessageView::HandshakeResponse(h) => {
            lemma_region_split(
                input,
                0,
                spec_lit_env_handshake_response() + spec_handshake_response_json(h),
                spec_lit_close_brace(),
            );
            lemma_region_split(
                input,
                0,
                spec_lit_env_handshake_response(),
                spec_handshake_response_json(h),
            );
        },
        WsMessageView::ProxyRequest(p) => {
            lemma_region_split(
                input,
                0,
                spec_lit_env_proxy_request() + spec_proxy_request_json(p),
                spec_lit_close_brace(),
            );
            lemma_region_split(input, 0, spec_lit_env_proxy_request(), spec_proxy_request_json(p));
        },
        WsMessageView::ProxyResponse(p) => {
            lemma_region_split(
                input,
                0,
                spec_lit_env_proxy_response() + spec_proxy_response_json(p),
                spec_lit_close_brace(),
            );
            lemma_region_split(
                input,
                0,
                spec_lit_env_proxy_response(),
                spec_proxy_response_json(p),
            );
        },
        WsMessageView::Data(d) => {
            lemma_region_split(
                input,
                0,
                spec_lit_env_data() + spec_json_byte_array(d),
                spec_lit_close_brace(),
            );
            lemma_region_split(input, 0, spec_lit_env_data(), spec_json_byte_array(d));
        },
        WsMessageView::Error(e) => {
            lemma_region_split(
                input,
                0,
                spec_lit_env_error() + spec_json_string(e),
                spec_lit_close_brace(),
            );
            lemma_region_split(input, 0, spec_lit_env_error(), spec_json_string(e));
        },
    }
}

} // verus!


verus! {

/// When an input starts with the `Handshake` tag, a whole envelope it may
/// equal can only be that variant, with its payload and closing brace at
/// fixed positions.
#[verifier::rlimit(60)]
proof fn lemma_env_handshake_only(input: Seq<u8>)
    requires
        region_match(input, 0, spec_lit_env_handshake()),
    ensures
        forall|w: WsMessageView| input == spec_ws_message_json(w) ==> {
            &&& w is Handshake
            &&& region_match(
                input,
                spec_lit_env_handshake().len() as int,
                spec_handshake_request_json(w->Handshake_0),
            )
            &&& region_match(
                input,
                spec_lit_env_handshake().len() + spec_handshake_request_json(w->Handshake_0).len() as int,
                spec_lit_close_brace(),
            )
            &&& input.len() == spec_lit_env_handshake().len() + spec_handshake_request_json(w->Handshake_0).len() + 1
        },
{
    assert forall|w: WsMessageView| input == spec_ws_message_json(w) implies {
        &&& w is Handshake
        &&& region_match(
            input,
            spec_lit_env_handshake().len() as int,
            spec_handshake_request_json(w->Handshake_0),
        )
        &&& region_match(
            input,
            spec_lit_env_handshake().len() + spec_handshake_request_json(w->Handshake_0).len() as int,
            spec_lit_close_brace(),
        )
        &&& input.len() == spec_lit_env_handshake().len() + spec_handshake_request_json(w->Handshake_0).len() + 1
    } by {
        assert(region_match(input, 0, spec_ws_message_json(w))) by {
            assert(input.subrange(0, spec_ws_message_json(w).len() as int) =~= input);
        }
        lemma_ws_tag_prefix(input, w);
        match w {
            WsMessageView::Handshake(p) => {
                lemma_region_split(
                    input,
                    0,
                    spec_lit_env_handshake() + spec_handshake_request_json(p),
                    spec_lit_close_brace(),
                );
                lemma_region_split(input, 0, spec_lit_env_handshake(), spec_handshake_request_json(p));
            },
            WsMessageView::HandshakeResponse(p) => {
                lemma_distinct_prefixes(input, spec_lit_env_handshake(), spec_lit_env_handshake_response(), 18);
            },
            WsMessageView::ProxyRequest(p) => {
                lemma_distinct_prefixes(input, spec_lit_env_handshake(), spec_lit_env_proxy_request(), 9);
            },
            WsMessageView::ProxyResponse(p) => {
                lemma_distinct_prefixes(input, spec_lit_env_handshake(), spec_lit_env_proxy_response(), 9);
            },
            WsMessageView::Data(p) => {
                lemma_distinct_prefixes(input, spec_lit_env_handshake(), spec_lit_env_data(), 9);
            },
            WsMessageView::Error(p) => {
                lemma_distinct_prefixes(input, spec_lit_env_handshake(), spec_lit_env_error(), 9);
            },
        }
    }
}


/// When an input starts with the `HandshakeResponse` tag, a whole envelope it may
/// equal can only be that variant, with its payload and closing brace at
/// fixed positions.
#[verifier::rlimit(60)]
proof fn lemma_env_handshake_response_only(input: Seq<u8>)
    requires
        region_match(input, 0, spec_lit_env_handshake_response()),
    ensures
        forall|w: WsMessageView| input == spec_ws_message_json(w) ==> {
            &&& w is HandshakeResponse
            &&& region_match(
                input,
                spec_lit_env_handshake_response().len() as int,
                spec_handshake_response_json(w->HandshakeResponse_0),
            )
            &&& region_match(
                input,
                spec_lit_env_handshake_response().len() + spec_handshake_response_json(w->HandshakeResponse_0).len() as int,
                spec_lit_close_brace(),
            )
            &&& input.len() == spec_lit_env_handshake_response().len() + spec_handshake_response_json(w->HandshakeResponse_0).len() + 1
        },
{
    assert forall|w: WsMessageView| input == spec_ws_message_json(w) implies {
        &&& w is HandshakeResponse
        &&& region_match(
            input,
            spec_lit_env_handshake_response().len() as int,
            spec_handshake_response_json(w->HandshakeResponse_0),
        )
        &&& region_match(
            input,
            spec_lit_env_handshake_response().len() + spec_handshake_response_json(w->HandshakeResponse_0).len() as int,
            spec_lit_close_brace(),
        )
        &&& input.len() == spec_lit_env_handshake_response().len() + spec_handshake_response_json(w->HandshakeResponse_0).len() + 1
    } by {
        assert(region_match(input, 0, spec_ws_message_json(w))) by {
            assert(input.subrange(0, spec_ws_message_json(w).len() as int) =~= input);
        }
        lemma_ws_tag_prefix(input, w);
        match w {
            WsMessageView::Handshake(p) => {
                lemma_distinct_prefixes(input, spec_lit_env_handshake_response(), spec_lit_env_handshake(), 18);
            },
            WsMessageView::HandshakeResponse(p) => {
                lemma_region_split(
                    input,
                    0,
                    spec_lit_env_handshake_response() + spec_handshake_response_json(p),
                    spec_lit_close_brace(),
                );
                lemma_region_split(input, 0, spec_lit_env_handshake_response(), spec_handshake_response_json(p));
            },
            WsMessageView::ProxyRequest(p) => {
                lemma_distinct_prefixes(input, spec_lit_env_handshake_response(), spec_lit_env_proxy_request(), 9);
            },
            WsMessageView::ProxyResponse(p) => {
                lemma_distinct_prefixes(input, spec_lit_env_handshake_response(), spec_lit_env_proxy_response(), 9);
            },
            WsMessageView::Data(p) => {
                lemma_distinct_prefixes(input, spec_lit_env_handshake_response(), spec_lit_env_data(), 9);
            },
            WsMessageView::Error(p) => {
                lemma_distinct_prefixes(input, spec_lit_env_handshake_response(), spec_lit_env_error(), 9);
            },
        }
    }
}


/// When an input starts with the `ProxyRequest` tag, a whole envelope it may
/// equal can only be that variant, with its payload and closing brace at
/// fixed positions.
#[verifier::rlimit(60)]
proof fn lemma_env_proxy_request_only(input: Seq<u8>)
    requires
        region_match(input, 0, spec_lit_env_proxy_request()),
    ensures
        forall|w: WsMessageView| input == spec_ws_message_json(w) ==> {
            &&& w is ProxyRequest
            &&& region_match(
                input,
                spec_lit_env_proxy_request().len() as int,
                spec_proxy_request_json(w->ProxyRequest_0),
            )
            &&& region_match(
                input,
                spec_lit_env_proxy_request().len() + spec_proxy_request_json(w->ProxyRequest_0).len() as int,
                spec_lit_close_brace(),
            )
            &&& input.len() == spec_lit_env_proxy_request().len() + spec_proxy_request_json(w->ProxyRequest_0).len() + 1
        },
{
    assert forall|w: WsMessageView| input == spec_ws_message_json(w) implies {
        &&& w is ProxyRequest
        &&& region_match(
            input,
            spec_lit_env_proxy_request().len() as int,
            spec_proxy_request_json(w->ProxyRequest_0),
        )
        &&& region_match(
            input,
            spec_lit_env_proxy_request().len() + spec_proxy_request_json(w->ProxyRequest_0).len() as int,
            spec_lit_close_brace(),
        )
        &&& input.len() == spec_lit_env_proxy_request().len() + spec_proxy_request_json(w->ProxyRequest_0).len() + 1
    } by {
        assert(region_match(input, 0, spec_ws_message_json(w))) by {
            assert(input.subrange(0, spec_ws_message_json(w).len() as int) =~= input);
        }
        lemma_ws_tag_prefix(input, w);
        match w {
            WsMessageView::Handshake(p) => {
                lemma_distinct_prefixes(input, spec_lit_env_proxy_request(), spec_lit_env_handshake(), 9);
            },
            WsMessageView::HandshakeResponse(p) => {
                lemma_distinct_prefixes(input, spec_lit_env_proxy_request(), spec_lit_env_handshake_response(), 9);
            },
            WsMessageView::ProxyRequest(p) => {
                lemma_region_split(
                    input,
                    0,
                    spec_lit_env_proxy_request() + spec_proxy_request_json(p),
                    spec_lit_close_brace(),
                );
                lemma_region_split(input, 0, spec_lit_env_proxy_request(), spec_proxy_request_json(p));
            },
            WsMessageView::ProxyResponse(p) => {
                lemma_distinct_prefixes(input, spec_lit_env_proxy_request(), spec_lit_env_proxy_response(), 16);
            },
            WsMessageView::Data(p) => {
                lemma_distinct_prefixes(input, spec_lit_env_proxy_request(), spec_lit_env_data(), 9);
            },
            WsMessageView::Error(p) => {
                lemma_distinct_prefixes(input, spec_lit_env_proxy_request(), spec_lit_env_error(), 9);
            },
        }
    }
}


/// When an input starts with the `ProxyResponse` tag, a whole envelope it may
/// equal can only be that variant, with its payload and closing brace at
/// fixed positions.
#[verifier::rlimit(60)]
proof fn lemma_env_proxy_response_only(input: Seq<u8>)
    requires
        region_match(input, 0, spec_lit_env_proxy_response()),
    ensures
        forall|w: WsMessageView| input == spec_ws_message_json(w) ==> {
            &&& w is ProxyResponse
            &&& region_match(
                input,
                spec_lit_env_proxy_response().len() as int,
                spec_proxy_response_json(w->ProxyResponse_0),
            )
            &&& region_match(
                input,
                spec_lit_env_proxy_response().len() + spec_proxy_response_json(w->ProxyResponse_0).len() as int,
                spec_lit_close_brace(),
            )
            &&& input.len() == spec_lit_env_proxy_response().len() + spec_proxy_response_json(w->ProxyResponse_0).len() + 1
        },
{
    assert forall|w: WsMessageView| input == spec_ws_message_json(w) implies {
        &&& w is ProxyResponse
        &&& region_match(
            input,
            spec_lit_env_proxy_response().len() as int,
            spec_proxy_response_json(w->ProxyResponse_0),
        )
        &&& region_match(
            input,
            spec_lit_env_proxy_response().len() + spec_proxy_response_json(w->ProxyResponse_0).len() as int,
            spec_lit_close_brace(),
        )
        &&& input.len() == spec_lit_env_proxy_response().len() + spec_proxy_response_json(w->ProxyResponse_0).len() + 1
    } by {
        assert(region_match(input, 0, spec_ws_message_json(w))) by {
            assert(input.subrange(0, spec_ws_message_json(w).len() as int) =~= input);
        }
        lemma_ws_tag_prefix(input, w);
        match w {
            WsMessageView::Handshake(p) => {
                lemma_distinct_prefixes(input, spec_lit_env_proxy_response(), spec_lit_env_handshake(), 9);
            },
            WsMessageView::HandshakeResponse(p) => {
                lemma_distinct_prefixes(input, spec_lit_env_proxy_response(), spec_lit_env_handshake_response(), 9);
            },
            WsMessageView::ProxyRequest(p) => {
                lemma_distinct_prefixes(input, spec_lit_env_proxy_response(), spec_lit_env_proxy_request(), 16);
            },
            WsMessageView::ProxyResponse(p) => {
                lemma_region_split(
                    input,
                    0,
                    spec_lit_env_proxy_response() + spec_proxy_response_json(p),
                    spec_lit_close_brace(),
                );
                lemma_region_split(input, 0, spec_lit_env_proxy_response(), spec_proxy_response_json(p));
            },
            WsMessageView::Data(p) => {
                lemma_distinct_prefixes(input, spec_lit_env_proxy_response(), spec_lit_env_data(), 9);
            },
            WsMessageView::Error(p) => {
                lemma_distinct_prefixes(input, spec_lit_env_proxy_response(), spec_lit_env_error(), 9);
            },
        }
    }
}


/// When an input starts with the `Data` tag, a whole envelope it may
/// equal can only be that variant, with its payload and closing brace at
/// fixed positions.
#[verifier::rlimit(60)]
proof fn lemma_env_data_only(input: Seq<u8>)
    requires
        region_match(input, 0, spec_lit_env_data()),
    ensures
        forall|w: WsMessageView| input == spec_ws_message_json(w) ==> {
            &&& w is Data
            &&& region_match(
                input,
                spec_lit_env_data().len() as int,
                spec_json_byte_array(w->Data_0),
            )
            &&& region_match(
                input,
                spec_lit_env_data().len() + spec_json_byte_array(w->Data_0).len() as int,
                spec_lit_close_brace(),
            )
            &&& input.len() == spec_lit_env_data().len() + spec_json_byte_array(w->Data_0).len() + 1
        },
{
    assert forall|w: WsMessageView| input == spec_ws_message_json(w) implies {
        &&& w is Data
        &&& region_match(
            input,
            spec_lit_env_data().len() as int,
            spec_json_byte_array(w->Data_0),
        )
        &&& region_match(
            input,
            spec_lit_env_data().len() + spec_json_byte_array(w->Data_0).len() as int,
            spec_lit_close_brace(),
        )
        &&& input.len() == spec_lit_env_data().len() + spec_json_byte_array(w->Data_0).len() + 1
    } by {
        assert(region_match(input, 0, spec_ws_message_json(w))) by {
            assert(input.subrange(0, spec_ws_message_json(w).len() as int) =~= input);
        }
        lemma_ws_tag_prefix(input, w);
        match w {
            WsMessageView::Handshake(p) => {
                lemma_distinct_prefixes(input, spec_lit_env_data(), spec_lit_env_handshake(), 9);
            },
            WsMessageView::HandshakeResponse(p) => {
                lemma_distinct_prefixes(input, spec_lit_env_data(), spec_lit_env_handshake_response(), 9);
            },
            WsMessageView::ProxyRequest(p) => {
                lemma_distinct_prefixes(input, spec_lit_env_data(), spec_lit_env_proxy_request(), 9);
            },
            WsMessageView::ProxyResponse(p) => {
                lemma_distinct_prefixes(input, spec_lit_env_data(), spec_lit_env_proxy_response(), 9);
            },
            WsMessageView::Data(p) => {
                lemma_region_split(
                    input,
                    0,
                    spec_lit_env_data() + spec_json_byte_array(p),
                    spec_lit_close_brace(),
                );
                lemma_region_split(input, 0, spec_lit_env_data(), spec_json_byte_array(p));
            },
            WsMessageView::Error(p) => {
                lemma_distinct_prefixes(input, spec_lit_env_data(), spec_lit_env_error(), 9);
            },
        }
    }
}


/// When an input starts with the `Error` tag, a whole envelope it may
/// equal can only be that variant, with its payload and closing brace at
/// fixed positions.
#[verifier::rlimit(60)]
proof fn lemma_env_error_only(input: Seq<u8>)
    requires
        region_match(input, 0, spec_lit_env_error()),
    ensures
        forall|w: WsMessageView| input == spec_ws_message_json(w) ==> {
            &&& w is Error
            &&& region_match(
                input,
                spec_lit_env_error().len() as int,
                spec_json_string(w->Error_0),
            )
            &&& region_match(
                input,
                spec_lit_env_error().len() + spec_json_string(w->Error_0).len() as int,
                spec_lit_close_brace(),
            )
            &&& input.len() == spec_lit_env_error().len() + spec_json_string(w->Error_0).len() + 1
        },
{
    assert forall|w: WsMessageView| input == spec_ws_message_json(w) implies {
        &&& w is Error
        &&& region_match(
            input,
            spec_lit_env_error().len() as int,
            spec_json_string(w->Error_0),
        )
        &&& region_match(
            input,
            spec_lit_env_error().len() + spec_json_string(w->Error_0).len() as int,
            spec_lit_close_brace(),
        )
        &&& input.len() == spec_lit_env_error().len() + spec_json_string(w->Error_0).len() + 1
    } by {
        assert(region_match(input, 0, spec_ws_message_json(w))) by {
            assert(input.subrange(0, spec_ws_message_json(w).len() as int) =~= input);
        }
        lemma_ws_tag_prefix(input, w);
        match w {
            WsMessageView::Handshake(p) => {
                lemma_distinct_prefixes(input, spec_lit_env_error(), spec_lit_env_handshake(), 9);
            },
            WsMessageView::HandshakeResponse(p) => {
                lemma_distinct_prefixes(input, spec_lit_env_error(), spec_lit_env_handshake_response(), 9);
            },
            WsMessageView::ProxyRequest(p) => {
                lemma_distinct_prefixes(input, spec_lit_env_error(), spec_lit_env_proxy_request(), 9);
            },
            WsMessageView::ProxyResponse(p) => {
                lemma_distinct_prefixes(input, spec_lit_env_error(), spec_lit_env_proxy_response(), 9);
            },
            WsMessageView::Data(p) => {
                lemma_distinct_prefixes(input, spec_lit_env_error(), spec_lit_env_data(), 9);
            },
            WsMessageView::Error(p) => {
                lemma_region_split(
                    input,
                    0,
                    spec_lit_env_error() + spec_json_string(p),
                    spec_lit_close_brace(),
                );
                lemma_region_split(input, 0, spec_lit_env_error(), spec_json_string(p));
            },
        }
    }
}

} // verus!


verus! {

/// Parses one whole envelope: exactly the canonical form of exactly one
/// message is accepted.
#[verifier::rlimit(90)]
pub fn parse_ws_message(input: &Vec<u8>) -> (r: Option<WsMessage>)
    ensures
        match r {
            Some(m) => input@ == spec_ws_message_json(m@) && (forall|w: WsMessageView|
                input@ == spec_ws_message_json(w) ==> w == m@),
            None => forall|w: WsMessageView| input@ != spec_ws_message_json(w),
        },
{
    let tag_handshake = lit_env_handshake();
    if let Some(p1_handshake) = expect_bytes(input, 0, &tag_handshake) {
        proof {
            lemma_env_handshake_only(input@);
        }
        match parse_handshake_request_at(input, p1_handshake) {
            Some((h, p2)) => {
                let lc = lit_close_brace();
                match expect_bytes(input, p2, &lc) {
                    Some(pe) => {
                        if pe == input.len() {
                            let m = WsMessage::Handshake(h);
                            proof {
                                lemma_region_join(input@, 0, spec_lit_env_handshake(), spec_handshake_request_json(m@->Handshake_0));
                                lemma_region_join(
                                    input@,
                                    0,
                                    spec_lit_env_handshake() + spec_handshake_request_json(m@->Handshake_0),
                                    spec_lit_close_brace(),
                                );
                                assert(input@ =~= spec_ws_message_json(m@));
                                assert forall|w: WsMessageView|
                                    input@ == spec_ws_message_json(w) implies w == m@ by {
                                    assert(w is Handshake);
                                    assert(w->Handshake_0 == m@->Handshake_0);
                                    assert(w =~= m@);
                                }
                            }
                            return Some(m);
                        } else {
                proof {
                    assert forall|w: WsMessageView| input@ != spec_ws_message_json(w) by {
                        if input@ == spec_ws_message_json(w) {
                            assert(w is Handshake);
                        }
                    }
                }
                return None;
                        }
                    },
                    None => {
                proof {
                    assert forall|w: WsMessageView| input@ != spec_ws_message_json(w) by {
                        if input@ == spec_ws_message_json(w) {
                            assert(w is Handshake);
                        }
                    }
                }
                return None;
                    },
                }
            },
            None => {
                proof {
                    assert forall|w: WsMessageView| input@ != spec_ws_message_json(w) by {
                        if input@ == spec_ws_message_json(w) {
                            assert(w is Handshake);
                        }
                    }
                }
                return None;
            },
        }
    }
    let tag_handshake_response = lit_env_handshake_response();
    if let Some(p1_handshake_response) = expect_bytes(input, 0, &tag_handshake_response) {
        proof {
            lemma_env_handshake_response_only(input@);
        }
        match parse_handshake_response_at(input, p1_handshake_response) {
            Some((h, p2)) => {
                let lc = lit_close_brace();
                match expect_bytes(input, p2, &lc) {
                    Some(pe) => {
                        if pe == input.len() {
                            let m = WsMessage::HandshakeResponse(h);
                            proof {
                                lemma_region_join(input@, 0, spec_lit_env_handshake_response(), spec_handshake_response_json(m@->HandshakeResponse_0));
                                lemma_region_join(
                                    input@,
                                    0,
                                    spec_lit_env_handshake_response() + spec_handshake_response_json(m@->HandshakeResponse_0),
                                    spec_lit_close_brace(),
                                );
                                assert(input@ =~= spec_ws_message_json(m@));
                                assert forall|w: WsMessageView|
                                    input@ == spec_ws_message_json(w) implies w == m@ by {
                                    assert(w is HandshakeResponse);
                                    assert(w->HandshakeResponse_0 == m@->HandshakeResponse_0);
                                    assert(w =~= m@);
                                }
                            }
                            return Some(m);
                        } else {
                proof {
                    assert forall|w: WsMessageView| input@ != spec_ws_message_json(w) by {
                        if input@ == spec_ws_message_json(w) {
                            assert(w is HandshakeResponse);
                        }
                    }
                }
                return None;
                        }
                    },
                    None => {
                proof {
                    assert forall|w: WsMessageView| input@ != spec_ws_message_json(w) by {
                        if input@ == spec_ws_message_json(w) {
                            assert(w is HandshakeResponse);
                        }
                    }
                }
                return None;
                    },
                }
            },
            None => {
                proof {
                    assert forall|w: WsMessageView| input@ != spec_ws_message_json(w) by {
                        if input@ == spec_ws_message_json(w) {
                            assert(w is HandshakeResponse);
                        }
                    }
                }
                return None;
            },
        }
    }
    let tag_proxy_request = lit_env_proxy_request();
    if let Some(p1_proxy_request) = expect_bytes(input, 0, &tag_proxy_request) {
        proof {
            lemma_env_proxy_request_only(input@);
        }
        match parse_proxy_request_at(input, p1_proxy_request) {
            Some((h, p2)) => {
                let lc = lit_close_brace();
                match expect_bytes(input, p2, &lc) {
                    Some(pe) => {
                        if pe == input.len() {
                            let m = WsMessage::ProxyRequest(h);
                            proof {
                                lemma_region_join(input@, 0, spec_lit_env_proxy_request(), spec_proxy_request_json(m@->ProxyRequest_0));
                                lemma_region_join(
                                    input@,
                                    0,
                                    spec_lit_env_proxy_request() + spec_proxy_request_json(m@->ProxyRequest_0),
                                    spec_lit_close_brace(),
                                );
                                assert(input@ =~= spec_ws_message_json(m@));
                                assert forall|w: WsMessageView|
                                    input@ == spec_ws_message_json(w) implies w == m@ by {
                                    assert(w is ProxyRequest);
                                    assert(w->ProxyRequest_0 == m@->ProxyRequest_0);
                                    assert(w =~= m@);
                                }
                            }
                            return Some(m);
                        } else {
                proof {
                    assert forall|w: WsMessageView| input@ != spec_ws_message_json(w) by {
                        if input@ == spec_ws_message_json(w) {
                            assert(w is ProxyRequest);
                        }
                    }
                }
                return None;
                        }
                    },
                    None => {
                proof {
                    assert forall|w: WsMessageView| input@ != spec_ws_message_json(w) by {
                        if input@ == spec_ws_message_json(w) {
                            assert(w is ProxyRequest);
                        }
                    }
                }
                return None;
                    },
                }
            },
            None => {
                proof {
                    assert forall|w: WsMessageView| input@ != spec_ws_message_json(w) by {
                        if input@ == spec_ws_message_json(w) {
                            assert(w is ProxyRequest);
                        }
                    }
                }
                return None;
            },
        }
    }
    let tag_proxy_response = lit_env_proxy_response();
    if let Some(p1_proxy_response) = expect_bytes(input, 0, &tag_proxy_response) {
        proof {
            lemma_env_proxy_response_only(input@);
        }
        match parse_proxy_response_at(input, p1_proxy_response) {
            Some((h, p2)) => {
                let lc = lit_close_brace();
                match expect_bytes(input, p2, &lc) {
                    Some(pe) => {
                        if pe == input.len() {
                            let m = WsMessage::ProxyResponse(h);
                            proof {
                                lemma_region_join(input@, 0, spec_lit_env_proxy_response(), spec_proxy_response_json(m@->ProxyResponse_0));
                                lemma_region_join(
                                    input@,
                                    0,
                                    spec_lit_env_proxy_response() + spec_proxy_response_json(m@->ProxyResponse_0),
                                    spec_lit_close_brace(),
                                );
                                assert(input@ =~= spec_ws_message_json(m@));
                                assert forall|w: WsMessageView|
                                    input@ == spec_ws_message_json(w) implies w == m@ by {
                                    assert(w is ProxyResponse);
                                    assert(w->ProxyResponse_0 == m@->ProxyResponse_0);
                                    assert(w =~= m@);
                                }
                            }
                            return Some(m);
                        } else {
                proof {
                    assert forall|w: WsMessageView| input@ != spec_ws_message_json(w) by {
                        if input@ == spec_ws_message_json(w) {
                            assert(w is ProxyResponse);
                        }
                    }
                }
                return None;
                        }
                    },
                    None => {
                proof {
                    assert forall|w: WsMessageView| input@ != spec_ws_message_json(w) by {
                        if input@ == spec_ws_message_json(w) {
                            assert(w is ProxyResponse);
                        }
                    }
                }
                return None;
                    },
                }
            },
            None => {
                proof {
                    assert forall|w: WsMessageView| input@ != spec_ws_message_json(w) by {
                        if input@ == spec_ws_message_json(w) {
                            assert(w is ProxyResponse);
                        }
                    }
                }
                return None;
            },
        }
    }
    let tag_data = lit_env_data();
    if let Some(p1_data) = expect_bytes(input, 0, &tag_data) {
        proof {
            lemma_env_data_only(input@);
        }
        match parse_byte_array_field(input, p1_data) {
            Some((h, p2)) => {
                let lc = lit_close_brace();
                match expect_bytes(input, p2, &lc) {
                    Some(pe) => {
                        if pe == input.len() {
                            let m = WsMessage::Data(h);
                            proof {
                                lemma_region_join(input@, 0, spec_lit_env_data(), spec_json_byte_array(m@->Data_0));
                                lemma_region_join(
                                    input@,
                                    0,
                                    spec_lit_env_data() + spec_json_byte_array(m@->Data_0),
                                    spec_lit_close_brace(),
                                );
                                assert(input@ =~= spec_ws_message_json(m@));
                                assert forall|w: WsMessageView|
                                    input@ == spec_ws_message_json(w) implies w == m@ by {
                                    assert(w is Data);
                                    assert(w->Data_0 == m@->Data_0);
                                    assert(w =~= m@);
                                }
                            }
                            return Some(m);
                        } else {
                proof {
                    assert forall|w: WsMessageView| input@ != spec_ws_message_json(w) by {
                        if input@ == spec_ws_message_json(w) {
                            assert(w is Data);
                        }
                    }
                }
                return None;
                        }
                    },
                    None => {
                proof {
                    assert forall|w: WsMessageView| input@ != spec_ws_message_json(w) by {
                        if input@ == spec_ws_message_json(w) {
                            assert(w is Data);
                        }
                    }
                }
                return None;
                    },
                }
            },
            None => {
                proof {
                    assert forall|w: WsMessageView| input@ != spec_ws_message_json(w) by {
                        if input@ == spec_ws_message_json(w) {
                            assert(w is Data);
                        }
                    }
                }
                return None;
            },
        }
    }
    let tag_error = lit_env_error();
    if let Some(p1_error) = expect_bytes(input, 0, &tag_error) {
        proof {
            lemma_env_error_only(input@);
        }
        match parse_string_field(input, p1_error) {
            Some((h, p2)) => {
                let lc = lit_close_brace();
                match expect_bytes(input, p2, &lc) {
                    Some(pe) => {
                        if pe == input.len() {
                            let m = WsMessage::Error(h);
                            proof {
                                lemma_region_join(input@, 0, spec_lit_env_error(), spec_json_string(m@->Error_0));
                                lemma_region_join(
                                    input@,
                                    0,
                                    spec_lit_env_error() + spec_json_string(m@->Error_0),
                                    spec_lit_close_brace(),
                                );
                                assert(input@ =~= spec_ws_message_json(m@));
                                assert forall|w: WsMessageView|
                                    input@ == spec_ws_message_json(w) implies w == m@ by {
                                    assert(w is Error);
                                    assert(w->Error_0 == m@->Error_0);
                                    assert(w =~= m@);
                                }
                            }
                            return Some(m);
                        } else {
                proof {
                    assert forall|w: WsMessageView| input@ != spec_ws_message_json(w) by {
                        if input@ == spec_ws_message_json(w) {
                            assert(w is Error);
                        }
                    }
                }
                return None;
                        }
                    },
                    None => {
                proof {
                    assert forall|w: WsMessageView| input@ != spec_ws_message_json(w) by {
                        if input@ == spec_ws_message_json(w) {
                            assert(w is Error);
                        }
                    }
                }
                return None;
                    },
                }
            },
            None => {
                proof {
                    assert forall|w: WsMessageView| input@ != spec_ws_message_json(w) by {
                        if input@ == spec_ws_message_json(w) {
                            assert(w is Error);
                        }
                    }
                }
                return None;
            },
        }
    }
    proof {
        assert forall|w: WsMessageView| input@ != spec_ws_message_json(w) by {
            if input@ == spec_ws_message_json(w) {
                assert(region_match(input@, 0, spec_ws_message_json(w))) by {
                    assert(input@.subrange(0, spec_ws_message_json(w).len() as int) =~= input@);
                }
                lemma_ws_tag_prefix(input@, w);
            }
        }
    }
    None
}

} // verus!
