//! The authenticated handshake: token comparison, the session decision on
//! the server, and the client's reading of the reply. Runs once per tunnel,
//! before any relay.

use vstd::prelude::*;

use crate::messages::{HandshakeRequest, HandshakeResponse};
use crate::session::{Session, SessionTable, SessionView};
use crate::ProxyError;

verus! {

/// Compares two strings without an early exit on the first differing byte:
/// the token check must not leak where a guess went wrong through its
/// timing. True exactly on equal strings.
pub fn str_eq(a: &str, b: &str) -> (r: bool)
    ensures
        r == (a@ == b@),
{
    broadcast use vstd::utf8::encode_utf8_decode_utf8;

    let ab = a.as_bytes();
    let bb = b.as_bytes();
    let n = ab.len();
    if n != bb.len() {
        proof {
            assert(a@ != b@);
        }
        return false;
    }
    let mut diff: u8 = 0;
    let mut i: usize = 0;
    while i < n
        invariant
            i <= n,
            n == ab@.len() && n == bb@.len(),
            (diff == 0) <==> (forall|k: int| 0 <= k < i ==> ab@[k] == bb@[k]),
        decreases n - i,
    {
        let x = ab[i];
        let y = bb[i];
        proof {
            assert((x ^ y) == 0 <==> x == y) by (bit_vector);
            assert((diff | (x ^ y)) == 0 <==> diff == 0 && (x ^ y) == 0) by (bit_vector);
        }
        diff = diff | (x ^ y);
        i = i + 1;
    }
    proof {
        if diff == 0 {
            assert(ab@ =~= bb@);
            assert(vstd::utf8::decode_utf8(ab@) == a@);
        } else {
            let k = choose|k: int| 0 <= k < n && ab@[k] != bb@[k];
            assert(a@ != b@) by {
                if a@ == b@ {
                    assert(ab@ == bb@);
                }
            }
        }
    }
    diff == 0
}

/// The server's handshake decision. A mismatched token is refused and
/// leaves the session table untouched; a matching token is granted the
/// fresh identifier, which is in the table the moment this returns, bound
/// to `client_label` — the requester's own identifier, or its address on
/// the framed transport.
pub fn server_handshake(
    table: &mut SessionTable,
    expected_token: &str,
    req: &HandshakeRequest,
    client_label: &str,
    fresh_id: String,
    now: u64,
) -> (r: (HandshakeResponse, Option<String>))
    requires
        old(table).wf(),
    ensures
        final(table).wf(),
        req.token@ != expected_token@ ==> {
            &&& final(table)@ == old(table)@
            &&& !r.0.success
            &&& r.0@.session_id is None
            &&& r.0@.message == "authentication failed: invalid token"@
            &&& r.1 is None
        },
        req.token@ == expected_token@ ==> {
            &&& r.0.success
            &&& r.0@.message == "authentication succeeded"@
            &&& r.0@.session_id == Some(fresh_id@)
            &&& (r.1 matches Some(sid) && sid@ == fresh_id@)
            &&& final(table)@ == old(table)@.insert(
                fresh_id@,
                SessionView { client_id: client_label@, connected_at: now },
            )
        },
        r.0.success == (req.token@ == expected_token@),
{
    if str_eq(req.token.as_str(), expected_token) {
        let session = Session {
            session_id: fresh_id.clone(),
            client_id: client_label.to_owned(),
            connected_at: now,
        };
        table.insert_session(session);
        let resp = HandshakeResponse {
            success: true,
            message: <String as vstd::string::StringExecFns>::from_str("authentication succeeded"),
            session_id: Some(fresh_id.clone()),
        };
        (resp, Some(fresh_id))
    } else {
        let resp = HandshakeResponse {
            success: false,
            message: <String as vstd::string::StringExecFns>::from_str("authentication failed: invalid token"),
            session_id: None,
        };
        (resp, None)
    }
}

/// The client's reading of a handshake response: success yields the session
/// identifier (empty when the server sent none); refusal is fatal.
pub fn interpret_handshake_response(resp: &HandshakeResponse) -> (r: Result<String, ProxyError>)
    ensures
        resp.success ==> (r matches Ok(s) && (match resp@.session_id {
            Some(x) => s@ == x,
            None => s@ == Seq::<char>::empty(),
        })),
        !resp.success ==> (r matches Err(e) && e is AuthenticationError),
{
    if resp.success {
        match &resp.session_id {
            Some(s) => Ok(s.clone()),
            None => Ok(String::new()),
        }
    } else {
        Err(ProxyError::AuthenticationError)
    }
}

} // verus!
