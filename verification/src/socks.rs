//! The SOCKS5 front-end: greeting and CONNECT-request parsing, the fixed
//! replies, target addresses and their `host:port` text form, and the choice
//! of the endpoint to dial.
//!
//! Only the byte logic lives here; reading and writing the socket is the
//! caller's business.

use vstd::prelude::*;
use vstd::utf8::{decode_utf8, encode_utf8, is_ascii_chars, valid_utf8};

use crate::json::{bytes_to_string, spec_u8_decimal};
use crate::ProxyError;

verus! {

pub const SOCKS_VERSION: u8 = 5;

pub const NO_AUTHENTICATION: u8 = 0;

pub const NO_ACCEPTABLE_METHOD: u8 = 255;

pub const CONNECT_COMMAND: u8 = 1;

pub const IPV4_ADDRESS: u8 = 1;

pub const DOMAIN_NAME: u8 = 3;

pub const IPV6_ADDRESS: u8 = 4;

/// The characters spelled by a sequence of ASCII bytes.
pub open spec fn spec_ascii_chars(bytes: Seq<u8>) -> Seq<char> {
    Seq::new(bytes.len(), |i: int| bytes[i] as char)
}

/// ASCII bytes are valid UTF-8 and decode to themselves, character for
/// character.
pub proof fn lemma_ascii_decode(bytes: Seq<u8>)
    requires
        forall|i: int| 0 <= i < bytes.len() ==> bytes[i] < 0x80,
    ensures
        valid_utf8(bytes),
        decode_utf8(bytes) == spec_ascii_chars(bytes),
        encode_utf8(spec_ascii_chars(bytes)) == bytes,
        spec_ascii_chars(bytes).len() == bytes.len(),
{
    broadcast use vstd::utf8::encode_utf8_valid_utf8, vstd::utf8::encode_utf8_decode_utf8;

    let chars = spec_ascii_chars(bytes);
    assert forall|i| 0 <= i < chars.len() implies '\0' <= #[trigger] chars[i] <= '\u{7f}' by {
        assert(chars[i] == bytes[i] as char);
        assert(bytes[i] < 0x80);
    }
    assert(is_ascii_chars(chars));
    vstd::utf8::is_ascii_chars_encode_utf8(chars);
    assert(encode_utf8(chars) =~= bytes) by {
        assert forall|i: int| 0 <= i < chars.len() implies #[trigger] encode_utf8(chars)[i]
            == bytes[i] by {
            assert(chars[i] as u8 == encode_utf8(chars)[i]);
            assert((bytes[i] as char) as u8 == bytes[i]);
        }
    }
}

/// Turns all-ASCII bytes into the string spelling them.
pub fn ascii_to_string(v: Vec<u8>) -> (r: String)
    requires
        forall|i: int| 0 <= i < v@.len() ==> v@[i] < 0x80,
    ensures
        r@ == spec_ascii_chars(v@),
{
    proof {
        lemma_ascii_decode(v@);
    }
    match bytes_to_string(v) {
        Some(s) => s,
        None => {
            proof {
                assert(false);
            }
            String::new()
        },
    }
}

/// A target address as it stands in a CONNECT request.
#[derive(Debug, Clone, PartialEq, Eq)]
pub enum TargetAddr {
    /// Four address bytes and a port.
    Ipv4([u8; 4], u16),
    /// Sixteen address bytes and a port.
    Ipv6([u8; 16], u16),
    /// A domain name, to be resolved, and a port.
    Domain(String, u16),
}

#[verifier::ext_equal]
pub enum TargetAddrView {
    Ipv4(Seq<u8>, u16),
    Ipv6(Seq<u8>, u16),
    Domain(Seq<char>, u16),
}

impl View for TargetAddr {
    type V = TargetAddrView;

    open spec fn view(&self) -> TargetAddrView {
        match self {
            TargetAddr::Ipv4(a, p) => TargetAddrView::Ipv4(a@, *p),
            TargetAddr::Ipv6(a, p) => TargetAddrView::Ipv6(a@, *p),
            TargetAddr::Domain(d, p) => TargetAddrView::Domain(d@, *p),
        }
    }
}

/// One concrete address to dial.
#[derive(Debug, Clone, Copy, PartialEq, Eq)]
pub enum IpEndpoint {
    /// Four address bytes and a port.
    V4([u8; 4], u16),
    /// Sixteen address bytes and a port.
    V6([u8; 16], u16),
}

#[verifier::ext_equal]
pub enum IpEndpointView {
    V4(Seq<u8>, u16),
    V6(Seq<u8>, u16),
}

impl View for IpEndpoint {
    type V = IpEndpointView;

    open spec fn view(&self) -> IpEndpointView {
        match self {
            IpEndpoint::V4(a, p) => IpEndpointView::V4(a@, *p),
            IpEndpoint::V6(a, p) => IpEndpointView::V6(a@, *p),
        }
    }
}

/// The port carried by its two big-endian bytes.
pub open spec fn spec_port_value(hi: u8, lo: u8) -> u16 {
    (hi as int * 256 + lo as int) as u16
}

pub fn port_from_bytes(hi: u8, lo: u8) -> (r: u16)
    ensures
        r == spec_port_value(hi, lo),
{
    (hi as u16) * 256 + (lo as u16)
}

/// Checks the greeting header: the version must be 5; the result is how many
/// method bytes follow.
pub fn check_greeting_header(version: u8, nmethods: u8) -> (r: Result<usize, ProxyError>)
    ensures
        version == SOCKS_VERSION ==> (r matches Ok(n) && n == nmethods),
        version != SOCKS_VERSION ==> (r matches Err(e) && e is ProtocolError),
{
    if version != SOCKS_VERSION {
        Err(ProxyError::ProtocolError)
    } else {
        Ok(nmethods as usize)
    }
}

/// Picks the greeting reply: `[5, 0]` when the client offers the
/// no-authentication method, `[5, 0xFF]` otherwise. The connection goes on
/// exactly when the method was offered.
pub fn select_auth_method(methods: &Vec<u8>) -> (r: (Vec<u8>, bool))
    ensures
        r.1 == methods@.contains(NO_AUTHENTICATION),
        r.1 ==> r.0@ == seq![SOCKS_VERSION, NO_AUTHENTICATION],
        !r.1 ==> r.0@ == seq![SOCKS_VERSION, NO_ACCEPTABLE_METHOD],
{
    let n = methods.len();
    let mut found = false;
    let mut i: usize = 0;
    while i < n
        invariant
            i <= n,
            n == methods@.len(),
            found == methods@.take(i as int).contains(NO_AUTHENTICATION),
        decreases n - i,
    {
        if methods[i] == NO_AUTHENTICATION {
            found = true;
        }
        proof {
            let pre = methods@.take(i as int);
            let cur = methods@.take(i as int + 1);
            assert(cur =~= pre.push(methods@[i as int]));
            if methods@[i as int] == NO_AUTHENTICATION {
                assert(cur[i as int] == NO_AUTHENTICATION);
                assert(cur.contains(NO_AUTHENTICATION));
            } else if cur.contains(NO_AUTHENTICATION) {
                let k = choose|k: int| 0 <= k < cur.len() && cur[k] == NO_AUTHENTICATION;
                assert(pre[k] == NO_AUTHENTICATION);
                assert(pre.contains(NO_AUTHENTICATION));
            }
        }
        i = i + 1;
    }
    proof {
        assert(methods@.take(n as int) =~= methods@);
    }
    let mut reply: Vec<u8> = Vec::new();
    reply.push(SOCKS_VERSION);
    if found {
        reply.push(NO_AUTHENTICATION);
        assert(reply@ =~= seq![SOCKS_VERSION, NO_AUTHENTICATION]);
    } else {
        reply.push(NO_ACCEPTABLE_METHOD);
        assert(reply@ =~= seq![SOCKS_VERSION, NO_ACCEPTABLE_METHOD]);
    }
    (reply, found)
}

/// What address form a CONNECT request announces.
#[derive(Debug, Clone, Copy, PartialEq, Eq)]
pub enum AddrKind {
    Ipv4,
    Domain,
    Ipv6,
}

/// Checks the four-byte request header `[version, command, reserved,
/// address type]`: version 5 and the CONNECT command only; any other
/// version, command or address type is a protocol error.
pub fn check_request_header(header: &Vec<u8>) -> (r: Result<AddrKind, ProxyError>)
    ensures
        match r {
            Ok(k) => {
                &&& header@.len() == 4
                &&& header@[0] == SOCKS_VERSION
                &&& header@[1] == CONNECT_COMMAND
                &&& match k {
                    AddrKind::Ipv4 => header@[3] == IPV4_ADDRESS,
                    AddrKind::Domain => header@[3] == DOMAIN_NAME,
                    AddrKind::Ipv6 => header@[3] == IPV6_ADDRESS,
                }
            },
            Err(e) => {
                &&& e is ProtocolError
                &&& (header@.len() != 4 || header@[0] != SOCKS_VERSION || header@[1]
                    != CONNECT_COMMAND || (header@[3] != IPV4_ADDRESS && header@[3] != DOMAIN_NAME
                    && header@[3] != IPV6_ADDRESS))
            },
        },
{
    if header.len() != 4 {
        return Err(ProxyError::ProtocolError);
    }
    if header[0] != SOCKS_VERSION || header[1] != CONNECT_COMMAND {
        return Err(ProxyError::ProtocolError);
    }
    if header[3] == IPV4_ADDRESS {
        Ok(AddrKind::Ipv4)
    } else if header[3] == DOMAIN_NAME {
        Ok(AddrKind::Domain)
    } else if header[3] == IPV6_ADDRESS {
        Ok(AddrKind::Ipv6)
    } else {
        Err(ProxyError::ProtocolError)
    }
}

/// Builds an IPv4 target from the four address bytes and the two big-endian
/// port bytes of the request.
pub fn make_ipv4_target(addr: &Vec<u8>, port: &Vec<u8>) -> (t: TargetAddr)
    requires
        addr@.len() == 4,
        port@.len() == 2,
    ensures
        t@ == TargetAddrView::Ipv4(addr@, spec_port_value(port@[0], port@[1])),
{
    let a: [u8; 4] = [addr[0], addr[1], addr[2], addr[3]];
    let t = TargetAddr::Ipv4(a, port_from_bytes(port[0], port[1]));
    proof {
        assert(a@ =~= addr@);
        assert(t@ =~= TargetAddrView::Ipv4(addr@, spec_port_value(port@[0], port@[1])));
    }
    t
}

/// Builds an IPv6 target from the sixteen address bytes and the port bytes.
pub fn make_ipv6_target(addr: &Vec<u8>, port: &Vec<u8>) -> (t: TargetAddr)
    requires
        addr@.len() == 16,
        port@.len() == 2,
    ensures
        t@ == TargetAddrView::Ipv6(addr@, spec_port_value(port@[0], port@[1])),
{
    let a: [u8; 16] = [
        addr[0],
        addr[1],
        addr[2],
        addr[3],
        addr[4],
        addr[5],
        addr[6],
        addr[7],
        addr[8],
        addr[9],
        addr[10],
        addr[11],
        addr[12],
        addr[13],
        addr[14],
        addr[15],
    ];
    let t = TargetAddr::Ipv6(a, port_from_bytes(port[0], port[1]));
    proof {
        assert(a@ =~= addr@);
        assert(t@ =~= TargetAddrView::Ipv6(addr@, spec_port_value(port@[0], port@[1])));
    }
    t
}

/// Builds a domain target from the name bytes and the port bytes; a name
/// that is not valid UTF-8 is a protocol error.
pub fn make_domain_target(name: Vec<u8>, port: &Vec<u8>) -> (r: Result<TargetAddr, ProxyError>)
    requires
        port@.len() == 2,
    ensures
        match r {
            Ok(t) => valid_utf8(name@) && t@ == TargetAddrView::Domain(
                decode_utf8(name@),
                spec_port_value(port@[0], port@[1]),
            ),
            Err(e) => !valid_utf8(name@) && e is ProtocolError,
        },
{
    let ghost nv = name@;
    let p = port_from_bytes(port[0], port[1]);
    match bytes_to_string(name) {
        Some(s) => {
            let t = TargetAddr::Domain(s, p);
            proof {
                assert(t@ =~= TargetAddrView::Domain(decode_utf8(nv), p));
            }
            Ok(t)
        },
        None => Err(ProxyError::ProtocolError),
    }
}

/// The endpoint a target dials: an IP target is its own endpoint; a domain
/// target takes the first resolved address, if any.
pub open spec fn spec_chosen_endpoint(t: TargetAddrView, resolved: Seq<IpEndpointView>) -> Option<
    IpEndpointView,
> {
    match t {
        TargetAddrView::Ipv4(a, p) => Some(IpEndpointView::V4(a, p)),
        TargetAddrView::Ipv6(a, p) => Some(IpEndpointView::V6(a, p)),
        TargetAddrView::Domain(_, _) => if resolved.len() > 0 {
            Some(resolved[0])
        } else {
            None
        },
    }
}

/// Resolves a target to the endpoint to dial. Only a domain target reads the
/// resolver's answer, and only its first address is used; a domain with no
/// address is a resolution error.
pub fn choose_endpoint(t: &TargetAddr, resolved: &Vec<IpEndpoint>) -> (r: Result<
    IpEndpoint,
    ProxyError,
>)
    ensures
        match spec_chosen_endpoint(t@, resolved@.map_values(|e: IpEndpoint| e@)) {
            Some(ev) => r matches Ok(e) && e@ == ev,
            None => r matches Err(e) && e is ResolutionError,
        },
{
    match t {
        TargetAddr::Ipv4(a, p) => Ok(IpEndpoint::V4(*a, *p)),
        TargetAddr::Ipv6(a, p) => Ok(IpEndpoint::V6(*a, *p)),
        TargetAddr::Domain(_, _) => {
            if resolved.len() > 0 {
                let e = resolved[0];
                proof {
                    assert(resolved@.map_values(|x: IpEndpoint| x@)[0] == e@);
                }
                Ok(e)
            } else {
                Err(ProxyError::ResolutionError)
            }
        },
    }
}

/// A CONNECT to a domain name that resolves to some address dials exactly
/// the endpoint a direct CONNECT to that address dials.
pub proof fn lemma_domain_like_direct(
    name: Seq<char>,
    dport: u16,
    resolved: Seq<IpEndpointView>,
    a: Seq<u8>,
    p: u16,
)
    requires
        resolved.len() > 0,
        resolved[0] == IpEndpointView::V4(a, p),
    ensures
        spec_chosen_endpoint(TargetAddrView::Domain(name, dport), resolved)
            == spec_chosen_endpoint(TargetAddrView::Ipv4(a, p), Seq::empty()),
{
}

/// The fixed ten-byte CONNECT reply: status 0 on success, 1 on failure, and
/// a placeholder bound address `0.0.0.0:0`.
pub open spec fn spec_socks_reply(success: bool) -> Seq<u8> {
    seq![
        SOCKS_VERSION,
        if success {
            0u8
        } else {
            1u8
        },
        0u8,
        IPV4_ADDRESS,
        0u8,
        0u8,
        0u8,
        0u8,
        0u8,
        0u8,
    ]
}

pub fn socks_reply(success: bool) -> (r: Vec<u8>)
    ensures
        r@ == spec_socks_reply(success),
{
    let mut v: Vec<u8> = Vec::new();
    v.push(SOCKS_VERSION);
    if success {
        v.push(0);
    } else {
        v.push(1);
    }
    v.push(0);
    v.push(IPV4_ADDRESS);
    v.push(0);
    v.push(0);
    v.push(0);
    v.push(0);
    v.push(0);
    v.push(0);
    assert(v@ =~= spec_socks_reply(success));
    v
}

} // verus!

verus! {

/// Every byte is ASCII.
pub open spec fn all_ascii(s: Seq<u8>) -> bool {
    forall|i: int| 0 <= i < s.len() ==> s[i] < 0x80
}

pub broadcast proof fn lemma_all_ascii_concat(a: Seq<u8>, b: Seq<u8>)
    requires
        all_ascii(a),
        all_ascii(b),
    ensures
        #[trigger] all_ascii(a + b),
{
    assert forall|i: int| 0 <= i < (a + b).len() implies (a + b)[i] < 0x80 by {
        if i < a.len() {
            assert((a + b)[i] == a[i]);
        } else {
            assert((a + b)[i] == b[i - a.len()]);
        }
    }
}

pub broadcast proof fn lemma_u8_decimal_ascii(n: u8)
    ensures
        all_ascii(#[trigger] spec_u8_decimal(n)),
{
}

/// Decimal digits of a port number, no leading zeros.
pub open spec fn spec_u16_decimal(n: u16) -> Seq<u8>
    decreases n,
{
    if n < 10 {
        seq![(0x30 + n) as u8]
    } else {
        spec_u16_decimal(n / 10).push((0x30 + n % 10) as u8)
    }
}

pub broadcast proof fn lemma_u16_decimal_ascii(n: u16)
    ensures
        all_ascii(#[trigger] spec_u16_decimal(n)),
    decreases n,
{
    if n >= 10 {
        lemma_u16_decimal_ascii(n / 10);
        assert(all_ascii(spec_u16_decimal(n))) by {
            assert(forall|i: int|
                0 <= i < spec_u16_decimal(n / 10).len() ==> #[trigger] spec_u16_decimal(n)[i]
                    == spec_u16_decimal(n / 10)[i]);
        }
    }
}

pub fn append_u16_decimal(out: &mut Vec<u8>, n: u16)
    ensures
        final(out)@ == old(out)@ + spec_u16_decimal(n),
    decreases n,
{
    if n < 10 {
        out.push(0x30 + n as u8);
        assert(final(out)@ =~= old(out)@ + spec_u16_decimal(n));
    } else {
        append_u16_decimal(out, n / 10);
        out.push(0x30 + (n % 10) as u8);
        assert(final(out)@ =~= old(out)@ + spec_u16_decimal(n));
    }
}

/// Lowercase hex digits of one address group, no leading zeros.
pub open spec fn spec_u16_hex(n: u16) -> Seq<u8>
    decreases n,
{
    if n < 16 {
        seq![crate::json::spec_hex_digit(n as u8)]
    } else {
        spec_u16_hex(n / 16).push(crate::json::spec_hex_digit((n % 16) as u8))
    }
}

pub broadcast proof fn lemma_u16_hex_ascii(n: u16)
    ensures
        all_ascii(#[trigger] spec_u16_hex(n)),
    decreases n,
{
    if n >= 16 {
        lemma_u16_hex_ascii(n / 16);
        assert(all_ascii(spec_u16_hex(n))) by {
            assert(forall|i: int|
                0 <= i < spec_u16_hex(n / 16).len() ==> #[trigger] spec_u16_hex(n)[i]
                    == spec_u16_hex(n / 16)[i]);
        }
    }
}

fn hex_digit_byte(n: u8) -> (r: u8)
    requires
        n < 16,
    ensures
        r == crate::json::spec_hex_digit(n),
{
    if n < 10 {
        0x30 + n
    } else {
        0x61 + (n - 10)
    }
}

pub fn append_u16_hex(out: &mut Vec<u8>, n: u16)
    ensures
        final(out)@ == old(out)@ + spec_u16_hex(n),
    decreases n,
{
    if n < 16 {
        out.push(hex_digit_byte(n as u8));
        assert(final(out)@ =~= old(out)@ + spec_u16_hex(n));
    } else {
        append_u16_hex(out, n / 16);
        out.push(hex_digit_byte((n % 16) as u8));
        assert(final(out)@ =~= old(out)@ + spec_u16_hex(n));
    }
}

/// Dotted-quad text of four address bytes.
pub open spec fn spec_ipv4_text(a: Seq<u8>) -> Seq<u8>
    recommends
        a.len() == 4,
{
    spec_u8_decimal(a[0]) + seq![46u8] + spec_u8_decimal(a[1]) + seq![46u8] + spec_u8_decimal(a[2])
        + seq![46u8] + spec_u8_decimal(a[3])
}

/// The value of one 16-bit group of an IPv6 address.
pub open spec fn spec_ipv6_group(a: Seq<u8>, g: int) -> u16
    recommends
        a.len() == 16,
        0 <= g < 8,
{
    (a[2 * g] as int * 256 + a[2 * g + 1] as int) as u16
}

/// Colon-separated lowercase hex groups of sixteen address bytes, each group
/// without leading zeros and none elided.
pub open spec fn spec_ipv6_text(a: Seq<u8>) -> Seq<u8>
    recommends
        a.len() == 16,
{
    spec_u16_hex(spec_ipv6_group(a, 0)) + seq![58u8] + spec_u16_hex(spec_ipv6_group(a, 1)) + seq![
        58u8,
    ] + spec_u16_hex(spec_ipv6_group(a, 2)) + seq![58u8] + spec_u16_hex(spec_ipv6_group(a, 3))
        + seq![58u8] + spec_u16_hex(spec_ipv6_group(a, 4)) + seq![58u8] + spec_u16_hex(
        spec_ipv6_group(a, 5),
    ) + seq![58u8] + spec_u16_hex(spec_ipv6_group(a, 6)) + seq![58u8] + spec_u16_hex(
        spec_ipv6_group(a, 7),
    )
}

/// The `host:port` text of a target: dotted quad for IPv4, bracketed hex
/// groups for IPv6, the name itself for a domain; then a colon and the port
/// in decimal.
pub open spec fn spec_target_addr_chars(v: TargetAddrView) -> Seq<char> {
    match v {
        TargetAddrView::Ipv4(a, p) => spec_ascii_chars(
            spec_ipv4_text(a) + seq![58u8] + spec_u16_decimal(p),
        ),
        TargetAddrView::Ipv6(a, p) => spec_ascii_chars(
            seq![91u8] + spec_ipv6_text(a) + seq![93u8, 58u8] + spec_u16_decimal(p),
        ),
        TargetAddrView::Domain(name, p) => name + spec_ascii_chars(
            seq![58u8] + spec_u16_decimal(p),
        ),
    }
}

} // verus!

verus! {

/// The `host:port` bytes of an IPv4 target.
fn ipv4_text_bytes(a: &[u8; 4], p: u16) -> (r: Vec<u8>)
    ensures
        r@ == spec_ipv4_text(a@) + seq![58u8] + spec_u16_decimal(p),
        all_ascii(r@),
{
    broadcast use lemma_all_ascii_concat, lemma_u8_decimal_ascii, lemma_u16_decimal_ascii;

    let mut b: Vec<u8> = Vec::new();
    crate::json::append_u8_decimal(&mut b, a[0]);
    b.push(46);
    crate::json::append_u8_decimal(&mut b, a[1]);
    b.push(46);
    crate::json::append_u8_decimal(&mut b, a[2]);
    b.push(46);
    crate::json::append_u8_decimal(&mut b, a[3]);
    b.push(58);
    append_u16_decimal(&mut b, p);
    proof {
        assert(b@ =~= spec_ipv4_text(a@) + seq![58u8] + spec_u16_decimal(p));
        assert(all_ascii(seq![46u8]));
        assert(all_ascii(seq![58u8]));
        assert(all_ascii(spec_ipv4_text(a@) + seq![58u8] + spec_u16_decimal(p)));
    }
    b
}

/// The `[host]:port` bytes of an IPv6 target.
#[verifier::rlimit(60)]
fn ipv6_text_bytes(a: &[u8; 16], p: u16) -> (r: Vec<u8>)
    ensures
        r@ == seq![91u8] + spec_ipv6_text(a@) + seq![93u8, 58u8] + spec_u16_decimal(p),
        all_ascii(r@),
{
    broadcast use lemma_all_ascii_concat, lemma_u16_decimal_ascii, lemma_u16_hex_ascii;

    let mut b: Vec<u8> = Vec::new();
    b.push(91);
    append_u16_hex(&mut b, (a[0] as u16) * 256 + (a[1] as u16));
    b.push(58);
    append_u16_hex(&mut b, (a[2] as u16) * 256 + (a[3] as u16));
    b.push(58);
    append_u16_hex(&mut b, (a[4] as u16) * 256 + (a[5] as u16));
    b.push(58);
    append_u16_hex(&mut b, (a[6] as u16) * 256 + (a[7] as u16));
    b.push(58);
    append_u16_hex(&mut b, (a[8] as u16) * 256 + (a[9] as u16));
    b.push(58);
    append_u16_hex(&mut b, (a[10] as u16) * 256 + (a[11] as u16));
    b.push(58);
    append_u16_hex(&mut b, (a[12] as u16) * 256 + (a[13] as u16));
    b.push(58);
    append_u16_hex(&mut b, (a[14] as u16) * 256 + (a[15] as u16));
    b.push(93);
    b.push(58);
    append_u16_decimal(&mut b, p);
    proof {
        assert(b@ =~= seq![91u8] + spec_ipv6_text(a@) + seq![93u8, 58u8] + spec_u16_decimal(p));
        assert(all_ascii(seq![91u8]));
        assert(all_ascii(seq![58u8]));
        assert(all_ascii(seq![93u8, 58u8]));
        assert(all_ascii(seq![91u8] + spec_ipv6_text(a@) + seq![93u8, 58u8] + spec_u16_decimal(p)));
    }
    b
}

/// Writes the `host:port` text of a target, as it travels in a proxy
/// request.
pub fn format_target_addr(t: &TargetAddr) -> (r: String)
    ensures
        r@ == spec_target_addr_chars(t@),
{
    broadcast use lemma_all_ascii_concat, lemma_u16_decimal_ascii;

    match t {
        TargetAddr::Ipv4(a, p) => {
            let b = ipv4_text_bytes(a, *p);
            ascii_to_string(b)
        },
        TargetAddr::Ipv6(a, p) => {
            let b = ipv6_text_bytes(a, *p);
            ascii_to_string(b)
        },
        TargetAddr::Domain(name, p) => {
            let mut tail: Vec<u8> = Vec::new();
            tail.push(58);
            append_u16_decimal(&mut tail, *p);
            proof {
                assert(tail@ =~= seq![58u8] + spec_u16_decimal(*p));
                assert(all_ascii(seq![58u8]));
                assert(all_ascii(seq![58u8] + spec_u16_decimal(*p)));
            }
            let tail_s = ascii_to_string(tail);
            let mut out = name.clone();
            vstd::string::StringExecFns::append(&mut out, tail_s.as_str());
            out
        },
    }
}

} // verus!
