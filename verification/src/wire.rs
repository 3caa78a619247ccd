//! Big-endian length prefixes and the length-framed unit of the encrypted
//! transport: `[u32 big-endian length][payload]`, where the payload of a
//! sealed frame is `[12-byte nonce][ciphertext+tag]`.

use vstd::prelude::*;

use crate::ProxyError;

verus! {

/// Upper bound on the payload bytes of one frame. The length prefix itself is
/// peer-controlled, so a bound is enforced on both the sending and the
/// receiving side; an oversized frame is a transport error.
pub const MAX_FRAME_LEN: u32 = 65536;

/// The four big-endian bytes of a 32-bit value.
pub open spec fn spec_be32(n: u32) -> Seq<u8> {
    seq![
        (n / 0x1000000) as u8,
        ((n / 0x10000) % 0x100) as u8,
        ((n / 0x100) % 0x100) as u8,
        (n % 0x100) as u8,
    ]
}

/// The 32-bit value carried by four big-endian bytes.
pub open spec fn spec_be32_value(b: Seq<u8>) -> u32
    recommends
        b.len() == 4,
{
    ((b[0] as int) * 0x1000000 + (b[1] as int) * 0x10000 + (b[2] as int) * 0x100 + (
    b[3] as int)) as u32
}

/// A whole frame: the payload's length in four big-endian bytes, then the
/// payload itself.
pub open spec fn spec_frame(payload: Seq<u8>) -> Seq<u8>
    recommends
        payload.len() <= MAX_FRAME_LEN,
{
    spec_be32(payload.len() as u32) + payload
}

/// Reading the four prefix bytes back gives the encoded value.
pub proof fn lemma_be32_round_trip(n: u32)
    ensures
        spec_be32_value(spec_be32(n)) == n,
{
    assert(((n / 0x1000000) as u8 as int) * 0x1000000 + (((n / 0x10000) % 0x100) as u8 as int)
        * 0x10000 + (((n / 0x100) % 0x100) as u8 as int) * 0x100 + ((n % 0x100) as u8 as int)
        == n) by (bit_vector);
}

pub fn be32_encode(n: u32) -> (r: Vec<u8>)
    ensures
        r@ == spec_be32(n),
{
    let mut v: Vec<u8> = Vec::new();
    assert(n / 0x1000000 < 0x100 && n / 0x10000 % 0x100 < 0x100 && n / 0x100 % 0x100 < 0x100 && n
        % 0x100 < 0x100) by (bit_vector);
    v.push((n / 0x1000000) as u8);
    v.push((n / 0x10000 % 0x100) as u8);
    v.push((n / 0x100 % 0x100) as u8);
    v.push((n % 0x100) as u8);
    assert(v@ =~= spec_be32(n));
    v
}

pub fn be32_decode(b: &Vec<u8>) -> (r: u32)
    requires
        b@.len() == 4,
    ensures
        r == spec_be32_value(b@),
{
    let n: u32 = (b[0] as u32) * 0x1000000 + (b[1] as u32) * 0x10000 + (b[2] as u32) * 0x100 + (
    b[3] as u32);
    n
}

/// Wraps a payload in a frame: a 4-byte big-endian length, then the payload.
/// A payload over [`MAX_FRAME_LEN`] is refused as a transport error.
pub fn encode_frame(payload: &Vec<u8>) -> (r: Result<Vec<u8>, ProxyError>)
    ensures
        payload@.len() <= MAX_FRAME_LEN ==> (r matches Ok(f) && f@ == spec_frame(payload@)),
        payload@.len() > MAX_FRAME_LEN ==> (r matches Err(e) && e is TransportError),
{
    if payload.len() > MAX_FRAME_LEN as usize {
        return Err(ProxyError::TransportError);
    }
    let mut f = be32_encode(payload.len() as u32);
    let mut rest = payload.clone();
    f.append(&mut rest);
    assert(f@ =~= spec_frame(payload@));
    Ok(f)
}

/// Reads the payload length out of a frame's 4-byte header, enforcing the
/// frame-size bound; an oversized announced length is a transport error.
pub fn header_payload_len(header: &Vec<u8>) -> (r: Result<u32, ProxyError>)
    requires
        header@.len() == 4,
    ensures
        spec_be32_value(header@) <= MAX_FRAME_LEN ==> (r matches Ok(n) && n
            == spec_be32_value(header@)),
        spec_be32_value(header@) > MAX_FRAME_LEN ==> (r matches Err(e) && e is TransportError),
{
    let n = be32_decode(header);
    if n > MAX_FRAME_LEN {
        Err(ProxyError::TransportError)
    } else {
        Ok(n)
    }
}

/// Framing then reading the header back announces exactly the payload.
pub proof fn lemma_frame_round_trip(payload: Seq<u8>)
    requires
        payload.len() <= MAX_FRAME_LEN,
    ensures
        spec_frame(payload).len() == payload.len() + 4,
        spec_be32_value(spec_frame(payload).subrange(0, 4)) == payload.len(),
        spec_frame(payload).skip(4) == payload,
{
    lemma_be32_round_trip(payload.len() as u32);
    assert(spec_frame(payload).subrange(0, 4) =~= spec_be32(payload.len() as u32));
    assert(spec_frame(payload).skip(4) =~= payload);
}

} // verus!
