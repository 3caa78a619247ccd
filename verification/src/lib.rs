//! Protocol engine for a SOCKS5 proxy whose outbound leg runs through a
//! remote peer, over either an AEAD-encrypted framed TCP tunnel or a
//! message-oriented tunnel carrying tagged JSON envelopes.

use vstd::prelude::*;

pub mod crypto;
pub mod demo;
pub mod envelope;
pub mod handshake;
pub mod json;
pub mod messages;
pub mod relay;
pub mod session;
pub mod socks;
pub mod transport;
pub mod wire;
pub mod ws;

verus! {

/// Error taxonomy of the protocol engine.
///
/// `ConnectError` carries the dial failure's human-readable cause, which is
/// surfaced to the peer where the protocol has a slot for it.
#[derive(Debug, Clone, PartialEq, Eq)]
pub enum ProxyError {
    /// Bad SOCKS version, command, or malformed message.
    ProtocolError,
    /// Handshake token mismatch.
    AuthenticationError,
    /// Decryption/authentication failure, or a wrong key length.
    CryptoError,
    /// Name resolution returned no usable address.
    ResolutionError,
    /// Dial to the target failed; the cause is surfaced to the client.
    ConnectError(String),
    /// Peer disconnected or sent a truncated or oversized frame.
    TransportError,
    /// A handshake or dial deadline expired.
    TimeoutError,
}

impl ProxyError {
    /// A short account of the error, for logs and failure replies.
    pub fn describe(&self) -> (r: String)
        ensures
            r@ == match self {
                ProxyError::ProtocolError => "protocol error"@,
                ProxyError::AuthenticationError => "authentication failed"@,
                ProxyError::CryptoError => "decryption failed"@,
                ProxyError::ResolutionError => "name resolution failed"@,
                ProxyError::ConnectError(c) => c@,
                ProxyError::TransportError => "transport error"@,
                ProxyError::TimeoutError => "timed out"@,
            },
    {
        match self {
            ProxyError::ProtocolError => <String as vstd::string::StringExecFns>::from_str(
                "protocol error",
            ),
            ProxyError::AuthenticationError => <String as vstd::string::StringExecFns>::from_str(
                "authentication failed",
            ),
            ProxyError::CryptoError => <String as vstd::string::StringExecFns>::from_str(
                "decryption failed",
            ),
            ProxyError::ResolutionError => <String as vstd::string::StringExecFns>::from_str(
                "name resolution failed",
            ),
            ProxyError::ConnectError(c) => c.clone(),
            ProxyError::TransportError => <String as vstd::string::StringExecFns>::from_str(
                "transport error",
            ),
            ProxyError::TimeoutError => <String as vstd::string::StringExecFns>::from_str(
                "timed out",
            ),
        }
    }
}

} // verus!
