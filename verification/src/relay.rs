//! The relay transforms of the encrypted transport: one socket read's worth
//! of bytes becomes one sealed frame, and a received frame opens back into
//! exactly those bytes. The two pumps of a relay run these transforms until
//! EOF or the first error.

use vstd::prelude::*;

use crate::crypto::{decryption_of, CryptoManager};
use crate::wire::{encode_frame, spec_be32_value, spec_frame, MAX_FRAME_LEN};
use crate::ProxyError;

verus! {

/// How many bytes one socket read may hand the framed transport; frame
/// boundaries follow read boundaries, not message semantics.
pub const READ_CHUNK_LEN: usize = 8192;

/// How many bytes one data envelope of the message transport may carry.
pub const WS_CHUNK_LEN: usize = 4096;

/// What the receiving pump makes of one whole frame: the announced length
/// must cover the rest and stay within bounds, and the payload must open
/// under the key.
pub open spec fn spec_open_frame(key: Seq<u8>, f: Seq<u8>) -> Option<Seq<u8>> {
    if f.len() >= 4 && spec_be32_value(f.subrange(0, 4)) == f.len() - 4 && f.len() - 4
        <= MAX_FRAME_LEN {
        decryption_of(key, f.skip(4))
    } else {
        None
    }
}

/// Seals one chunk for the framed transport: encrypt under a fresh nonce,
/// then prefix the length. Owed success exactly when the sealed unit fits a
/// frame; the receiving side gets the chunk back, byte for byte.
pub fn seal_frame(crypto: &CryptoManager, plain: &[u8]) -> (r: Result<Vec<u8>, ProxyError>)
    requires
        crypto.wf(),
    ensures
        plain@.len() + 28 <= MAX_FRAME_LEN ==> r is Ok,
        plain@.len() + 28 > MAX_FRAME_LEN ==> (r matches Err(e) && e is TransportError),
        r matches Ok(f) ==> spec_open_frame(crypto@, f@) == Some(plain@),
{
    if plain.len() > (MAX_FRAME_LEN - 28) as usize {
        return Err(ProxyError::TransportError);
    }
    let sealed = match crypto.encrypt(plain) {
        Ok(s) => s,
        Err(_) => {
            proof {
                assert(false);
            }
            return Err(ProxyError::TransportError);
        },
    };
    match encode_frame(&sealed) {
        Ok(f) => {
            proof {
                crate::wire::lemma_frame_round_trip(sealed@);
                assert(f@.subrange(0, 4) =~= spec_frame(sealed@).subrange(0, 4));
                crate::crypto::lemma_encrypt_then_decrypt(crypto@, plain@, sealed@);
            }
            Ok(f)
        },
        Err(_) => {
            proof {
                assert(false);
            }
            Err(ProxyError::TransportError)
        },
    }
}

/// One frame sealed from a chunk, as the contract of [`seal_frame`] leaves
/// it on the wire.
pub open spec fn spec_is_sealed_frame(key: Seq<u8>, chunk: Seq<u8>, f: Seq<u8>) -> bool {
    &&& f.len() >= 4
    &&& spec_be32_value(f.subrange(0, 4)) == f.len() - 4
    &&& f.len() - 4 <= MAX_FRAME_LEN
    &&& decryption_of(key, f.skip(4)) == Some(chunk)
}

/// What the receiving pump makes of a whole byte stream: frame after frame,
/// each opened in order. Within one direction of one connection, ordering
/// is exactly the order the frames were written.
pub open spec fn spec_open_frame_stream(key: Seq<u8>, stream: Seq<u8>) -> Option<Seq<Seq<u8>>>
    decreases stream.len(),
{
    if stream.len() == 0 {
        Some(Seq::empty())
    } else if stream.len() < 4 {
        None
    } else {
        let n = spec_be32_value(stream.subrange(0, 4)) as int;
        if n > MAX_FRAME_LEN || stream.len() < 4 + n {
            None
        } else {
            match decryption_of(key, stream.subrange(4, 4 + n)) {
                Some(p) => match spec_open_frame_stream(key, stream.skip(4 + n)) {
                    Some(rest) => Some(seq![p] + rest),
                    None => None,
                },
                None => None,
            }
        }
    }
}

/// A stream of sealed frames opens back into exactly the chunks that were
/// sealed, in order: what the relay forwards arrives byte for byte.
pub proof fn lemma_frame_stream_round_trip(key: Seq<u8>, chunks: Seq<Seq<u8>>, wires: Seq<Seq<u8>>)
    requires
        wires.len() == chunks.len(),
        forall|i: int|
            0 <= i < wires.len() ==> spec_is_sealed_frame(key, chunks[i], #[trigger] wires[i]),
    ensures
        spec_open_frame_stream(key, wires.flatten()) == Some(chunks),
    decreases chunks.len(),
{
    reveal_with_fuel(Seq::flatten, 2);
    if chunks.len() == 0 {
        assert(wires.flatten() =~= Seq::<u8>::empty());
    } else {
        let w0 = wires[0];
        let rest = wires.drop_first().flatten();
        assert(wires.first() == w0);
        let stream = wires.flatten();
        assert(stream == w0 + rest);
        assert(spec_is_sealed_frame(key, chunks[0], w0));
        let n = (w0.len() - 4) as int;
        assert(stream.len() >= 4);
        assert(stream.subrange(0, 4) =~= w0.subrange(0, 4));
        assert(spec_be32_value(stream.subrange(0, 4)) == n);
        assert(stream.len() >= 4 + n);
        assert(stream.subrange(4, 4 + n) =~= w0.skip(4));
        assert(stream.skip(4 + n) =~= rest);
        assert forall|i: int|
            0 <= i < wires.drop_first().len() implies spec_is_sealed_frame(
            key,
            chunks.drop_first()[i],
            #[trigger] wires.drop_first()[i],
        ) by {
            assert(wires.drop_first()[i] == wires[i + 1]);
            assert(chunks.drop_first()[i] == chunks[i + 1]);
        }
        lemma_frame_stream_round_trip(key, chunks.drop_first(), wires.drop_first());
        assert(seq![chunks[0]] + chunks.drop_first() =~= chunks);
    }
}

} // verus!
