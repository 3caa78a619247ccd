use proxy_core::demo::{first_word, ince, IpAddrKind};
use proxy_core::ProxyError;

#[test]
fn errors_describe_themselves() {
    assert_eq!(ProxyError::ProtocolError.describe(), "protocol error");
    assert_eq!(ProxyError::AuthenticationError.describe(), "authentication failed");
    assert_eq!(ProxyError::CryptoError.describe(), "decryption failed");
    assert_eq!(ProxyError::ResolutionError.describe(), "name resolution failed");
    assert_eq!(
        ProxyError::ConnectError("connection refused".to_string()).describe(),
        "connection refused"
    );
    assert_eq!(ProxyError::TransportError.describe(), "transport error");
    assert_eq!(ProxyError::TimeoutError.describe(), "timed out");
}

#[test]
fn ince_increments() {
    let mut x = 41;
    ince(&mut x);
    assert_eq!(x, 42);
}

#[test]
fn loopbacks_by_family() {
    assert_eq!(IpAddrKind::new("V4"), IpAddrKind::V4("127.0.0.1".to_string()));
    assert_eq!(IpAddrKind::new("V6"), IpAddrKind::V6("::1".to_string()));
    assert_eq!(IpAddrKind::new("other"), IpAddrKind::V6("::1".to_string()));
}

#[test]
fn first_word_finds_the_first_space() {
    assert_eq!(first_word(&"hello world".to_string()), 5);
    assert_eq!(first_word(&"hello".to_string()), 5);
    assert_eq!(first_word(&" lead".to_string()), 0);
    assert_eq!(first_word(&"".to_string()), 0);
}
