use proxy_core::socks::{
    check_greeting_header, check_request_header, choose_endpoint, format_target_addr,
    make_domain_target, make_ipv4_target, make_ipv6_target, port_from_bytes, select_auth_method,
    socks_reply, AddrKind, IpEndpoint, TargetAddr,
};
use proxy_core::wire::{be32_decode, be32_encode, encode_frame, header_payload_len};
use proxy_core::ProxyError;

#[test]
fn greeting_header_requires_version_5() {
    assert_eq!(check_greeting_header(5, 2), Ok(2));
    assert_eq!(check_greeting_header(4, 1), Err(ProxyError::ProtocolError));
}

#[test]
fn gssapi_only_greeting_is_rejected() {
    // a greeting offering only method 0x01 (GSSAPI)
    let (reply, ok) = select_auth_method(&vec![0x01]);
    assert_eq!(reply, vec![5, 0xFF]);
    assert!(!ok);
}

#[test]
fn no_authentication_is_selected_when_offered() {
    let (reply, ok) = select_auth_method(&vec![0x02, 0x00, 0x01]);
    assert_eq!(reply, vec![5, 0]);
    assert!(ok);
    let (reply, ok) = select_auth_method(&vec![]);
    assert_eq!(reply, vec![5, 0xFF]);
    assert!(!ok);
}

#[test]
fn request_header_is_checked() {
    assert_eq!(check_request_header(&vec![5, 1, 0, 1]), Ok(AddrKind::Ipv4));
    assert_eq!(check_request_header(&vec![5, 1, 0, 3]), Ok(AddrKind::Domain));
    assert_eq!(check_request_header(&vec![5, 1, 0, 4]), Ok(AddrKind::Ipv6));
    // only CONNECT is supported
    assert_eq!(
        check_request_header(&vec![5, 2, 0, 1]),
        Err(ProxyError::ProtocolError)
    );
    assert_eq!(
        check_request_header(&vec![4, 1, 0, 1]),
        Err(ProxyError::ProtocolError)
    );
    assert_eq!(
        check_request_header(&vec![5, 1, 0, 9]),
        Err(ProxyError::ProtocolError)
    );
    assert_eq!(check_request_header(&vec![5, 1]), Err(ProxyError::ProtocolError));
}

#[test]
fn targets_format_as_host_and_port() {
    let t = make_ipv4_target(&vec![93, 184, 216, 34], &vec![0, 80]);
    assert_eq!(format_target_addr(&t), "93.184.216.34:80");

    let t = make_domain_target(b"example.com".to_vec(), &vec![1, 187]).unwrap();
    assert_eq!(format_target_addr(&t), "example.com:443");

    let mut a16 = vec![0x20, 0x01, 0x0d, 0xb8];
    a16.extend_from_slice(&[0; 11]);
    a16.push(1);
    let t = make_ipv6_target(&a16, &vec![0, 80]);
    assert_eq!(format_target_addr(&t), "[2001:db8:0:0:0:0:0:1]:80");
}

#[test]
fn domain_names_must_be_utf8() {
    assert_eq!(
        make_domain_target(vec![0xff, 0xfe], &vec![0, 80]).err(),
        Some(ProxyError::ProtocolError)
    );
}

#[test]
fn domain_resolution_behaves_like_a_direct_request() {
    let resolved = vec![IpEndpoint::V4([93, 184, 216, 34], 80)];
    let via_domain = choose_endpoint(
        &TargetAddr::Domain("example.com".to_string(), 80),
        &resolved,
    )
    .unwrap();
    let direct = choose_endpoint(&TargetAddr::Ipv4([93, 184, 216, 34], 80), &vec![]).unwrap();
    assert_eq!(via_domain, direct);
}

#[test]
fn unresolvable_domain_is_a_resolution_error() {
    let r = choose_endpoint(&TargetAddr::Domain("nowhere.invalid".to_string(), 1), &vec![]);
    assert_eq!(r, Err(ProxyError::ResolutionError));
}

#[test]
fn ip_targets_ignore_the_resolver() {
    let resolved = vec![IpEndpoint::V4([1, 2, 3, 4], 9)];
    let r = choose_endpoint(&TargetAddr::Ipv6([0; 16], 443), &resolved).unwrap();
    assert_eq!(r, IpEndpoint::V6([0; 16], 443));
}

#[test]
fn connect_replies_are_the_fixed_ten_bytes() {
    assert_eq!(socks_reply(true), vec![5, 0, 0, 1, 0, 0, 0, 0, 0, 0]);
    assert_eq!(socks_reply(false), vec![5, 1, 0, 1, 0, 0, 0, 0, 0, 0]);
}

#[test]
fn ports_read_big_endian() {
    assert_eq!(port_from_bytes(0, 80), 80);
    assert_eq!(port_from_bytes(1, 187), 443);
    assert_eq!(port_from_bytes(255, 255), 65535);
}

#[test]
fn length_prefixes_read_and_write_big_endian() {
    assert_eq!(be32_encode(0x01020304), vec![1, 2, 3, 4]);
    assert_eq!(be32_decode(&vec![1, 2, 3, 4]), 0x01020304);
    for n in [0u32, 1, 255, 256, 65535, 65536] {
        assert_eq!(be32_decode(&be32_encode(n)), n);
    }
}

#[test]
fn oversized_frames_are_refused_both_ways() {
    let big = vec![0u8; 65537];
    assert_eq!(encode_frame(&big), Err(ProxyError::TransportError));
    let header = be32_encode(65537);
    assert_eq!(header_payload_len(&header), Err(ProxyError::TransportError));
    let header = be32_encode(65536);
    assert_eq!(header_payload_len(&header), Ok(65536));
}

#[test]
fn frames_carry_their_length_prefix() {
    let payload = vec![9, 8, 7];
    let f = encode_frame(&payload).unwrap();
    assert_eq!(f, vec![0, 0, 0, 3, 9, 8, 7]);
}
