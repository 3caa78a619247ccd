//! Small self-contained demonstration functions, kept public with their
//! contracts.

use vstd::prelude::*;

verus! {

/// Increments the integer behind the reference by one.
pub fn ince(x: &mut i32)
    requires
        *old(x) < i32::MAX,
    ensures
        *final(x) == *old(x) + 1,
{
    *x += 1;
}

/// An address family tag carrying a textual address.
#[derive(Debug, Clone, PartialEq, Eq)]
pub enum IpAddrKind {
    V4(String),
    V6(String),
}

impl IpAddrKind {
    /// The loopback address of the named family: `V4` picks the IPv4
    /// loopback, anything else the IPv6 one.
    pub fn new(kind: &str) -> (r: Self)
        ensures
            kind@ == "V4"@ ==> (r matches IpAddrKind::V4(s) && s@ == "127.0.0.1"@),
            kind@ != "V4"@ ==> (r matches IpAddrKind::V6(s) && s@ == "::1"@),
    {
        if crate::handshake::str_eq(kind, "V4") {
            IpAddrKind::V4(<String as vstd::string::StringExecFns>::from_str("127.0.0.1"))
        } else {
            IpAddrKind::V6(<String as vstd::string::StringExecFns>::from_str("::1"))
        }
    }
}

pub fn test3() {
}

/// The byte index of the first space in the string, or its byte length when
/// it has none.
pub fn first_word(s: &String) -> (r: i32)
    requires
        vstd::utf8::encode_utf8(s@).len() <= i32::MAX,
    ensures
        0 <= r <= vstd::utf8::encode_utf8(s@).len(),
        forall|k: int| 0 <= k < r ==> vstd::utf8::encode_utf8(s@)[k] != 32,
        r < vstd::utf8::encode_utf8(s@).len() ==> vstd::utf8::encode_utf8(s@)[r as int] == 32,
{
    let bytes = s.as_str().as_bytes();
    let n = bytes.len();
    let mut i: usize = 0;
    while i < n
        invariant
            i <= n,
            n == bytes@.len(),
            bytes@ == vstd::utf8::encode_utf8(s@),
            n <= i32::MAX,
            forall|k: int| 0 <= k < i ==> bytes@[k] != 32,
        decreases n - i,
    {
        if bytes[i] == 32 {
            return i as i32;
        }
        i = i + 1;
    }
    n as i32
}

} // verus!
