//! Byte-level JSON primitives for the fixed message schemas of the tunnel
//! protocol: canonical string escaping, booleans, byte arrays as arrays of
//! decimal integers, and exact-match literals.
//!
//! Encoders emit exactly one canonical form; parsers accept exactly that
//! form, which makes both directions of each codec provable as inverses.

use vstd::prelude::*;
use vstd::utf8::{decode_utf8, encode_utf8, valid_utf8};


verus! {

/// Lowercase hex digit character (as a byte) of a nibble.
pub open spec fn spec_hex_digit(n: u8) -> u8
    recommends
        n < 16,
{
    if n < 10 {
        (0x30 + n) as u8  // '0'..'9'
    } else {
        (0x61 + (n - 10)) as u8  // 'a'..'f'
    }
}

/// Is `b` a lowercase hex digit character?
pub open spec fn spec_is_hex_lower(b: u8) -> bool {
    (0x30 <= b <= 0x39) || (0x61 <= b <= 0x66)
}

/// Nibble value of a lowercase hex digit character.
pub open spec fn spec_hex_val(b: u8) -> u8
    recommends
        spec_is_hex_lower(b),
{
    if b <= 0x39 {
        (b - 0x30) as u8
    } else {
        ((b - 0x61) + 10) as u8
    }
}

/// How one byte of a JSON string's content is written: itself, a two-byte
/// shorthand escape, or a six-byte `\u00xx` escape for the remaining control
/// bytes.
pub open spec fn spec_escape_byte(b: u8) -> Seq<u8> {
    if b == 0x22 {  // '"'  -> \"
        seq![0x5cu8, 0x22u8]
    } else if b == 0x5c {  // '\' -> \\
        seq![0x5cu8, 0x5cu8]
    } else if b == 0x08 {  // \b
        seq![0x5cu8, 0x62u8]
    } else if b == 0x09 {  // \t
        seq![0x5cu8, 0x74u8]
    } else if b == 0x0a {  // \n
        seq![0x5cu8, 0x6eu8]
    } else if b == 0x0c {  // \f
        seq![0x5cu8, 0x66u8]
    } else if b == 0x0d {  // \r
        seq![0x5cu8, 0x72u8]
    } else if b < 0x20 {  // \u00xx
        seq![0x5cu8, 0x75u8, 0x30u8, 0x30u8, spec_hex_digit(b / 16), spec_hex_digit(b % 16)]
    } else {
        seq![b]
    }
}

/// The escaped form of a whole content byte sequence.
pub open spec fn spec_escape_bytes(s: Seq<u8>) -> Seq<u8>
    decreases s.len(),
{
    if s.len() == 0 {
        Seq::empty()
    } else {
        spec_escape_byte(s[0]) + spec_escape_bytes(s.skip(1))
    }
}

/// A JSON string token: a quote, the escaped UTF-8 bytes of the characters,
/// and a closing quote.
pub open spec fn spec_json_string(s: Seq<char>) -> Seq<u8> {
    seq![0x22u8] + spec_escape_bytes(encode_utf8(s)) + seq![0x22u8]
}

pub proof fn lemma_escape_bytes_push(s: Seq<u8>, b: u8)
    ensures
        spec_escape_bytes(s.push(b)) == spec_escape_bytes(s) + spec_escape_byte(b),
    decreases s.len(),
{
    if s.len() == 0 {
        reveal_with_fuel(spec_escape_bytes, 2);
        assert(s.push(b)[0] == b);
        assert(s.push(b).skip(1) =~= Seq::<u8>::empty());
        assert(spec_escape_bytes(s.push(b)) =~= spec_escape_byte(b));
        assert(spec_escape_bytes(s) + spec_escape_byte(b) =~= spec_escape_byte(b));
    } else {
        assert(s.push(b).skip(1) =~= s.skip(1).push(b));
        lemma_escape_bytes_push(s.skip(1), b);
        assert(spec_escape_bytes(s.push(b)) =~= spec_escape_bytes(s) + spec_escape_byte(b));
    }
}

fn hex_digit_exec(n: u8) -> (r: u8)
    requires
        n < 16,
    ensures
        r == spec_hex_digit(n),
{
    if n < 10 {
        0x30 + n
    } else {
        0x61 + (n - 10)
    }
}

/// Appends the canonical JSON string token for `s` to `out`.
pub fn append_json_string(out: &mut Vec<u8>, s: &str)
    ensures
        final(out)@ == old(out)@ + spec_json_string(s@),
{
    let bs = s.as_bytes();
    out.push(0x22);
    let n = bs.len();
    let mut i: usize = 0;
    while i < n
        invariant
            i <= n,
            n == bs@.len(),
            out@ == old(out)@ + seq![0x22u8] + spec_escape_bytes(bs@.take(i as int)),
        decreases n - i,
    {
        let b = bs[i];
        proof {
            lemma_escape_bytes_push(bs@.take(i as int), b);
            assert(bs@.take(i as int + 1) =~= bs@.take(i as int).push(b));
        }
        if b == 0x22 {
            out.push(0x5c);
            out.push(0x22);
        } else if b == 0x5c {
            out.push(0x5c);
            out.push(0x5c);
        } else if b == 0x08 {
            out.push(0x5c);
            out.push(0x62);
        } else if b == 0x09 {
            out.push(0x5c);
            out.push(0x74);
        } else if b == 0x0a {
            out.push(0x5c);
            out.push(0x6e);
        } else if b == 0x0c {
            out.push(0x5c);
            out.push(0x66);
        } else if b == 0x0d {
            out.push(0x5c);
            out.push(0x72);
        } else if b < 0x20 {
            out.push(0x5c);
            out.push(0x75);
            out.push(0x30);
            out.push(0x30);
            out.push(hex_digit_exec(b / 16));
            out.push(hex_digit_exec(b % 16));
        } else {
            out.push(b);
        }
        assert(out@ =~= old(out)@ + seq![0x22u8] + spec_escape_bytes(bs@.take(i as int + 1)));
        i = i + 1;
    }
    out.push(0x22);
    proof {
        assert(bs@.take(n as int) =~= bs@);
        assert(out@ =~= old(out)@ + spec_json_string(s@));
    }
}

/// Matches an exact byte literal at `pos`, returning the position after it.
pub fn expect_bytes(input: &Vec<u8>, pos: usize, lit: &Vec<u8>) -> (r: Option<usize>)
    ensures
        match r {
            Some(p2) => {
                &&& p2 == pos + lit@.len()
                &&& p2 <= input@.len()
                &&& input@.subrange(pos as int, p2 as int) == lit@
            },
            None => !(pos + lit@.len() <= input@.len() && input@.subrange(
                pos as int,
                pos as int + lit@.len() as int,
            ) == lit@),
        },
{
    let m = lit.len();
    if input.len() < m || pos > input.len() - m {
        return None;
    }
    let mut k: usize = 0;
    while k < m
        invariant
            k <= m,
            m == lit@.len(),
            pos + m <= input@.len(),
            pos + m <= usize::MAX,
            forall|t: int| 0 <= t < k ==> input@[pos + t] == lit@[t],
        decreases m - k,
    {
        if input[pos + k] != lit[k] {
            proof {
                let sub = input@.subrange(pos as int, pos as int + m as int);
                assert(sub[k as int] == input@[pos + k]);
                assert(sub != lit@);
            }
            return None;
        }
        k = k + 1;
    }
    proof {
        assert(input@.subrange(pos as int, pos as int + m as int) =~= lit@);
    }
    Some(pos + m)
}

} // verus!

verus! {

/// The short escapes: what the byte after a backslash stands for, for the
/// seven two-byte escapes.
pub open spec fn spec_unescape_short(x: u8) -> Option<u8> {
    if x == 0x22 {
        Some(0x22u8)
    } else if x == 0x5c {
        Some(0x5cu8)
    } else if x == 0x62 {
        Some(0x08u8)
    } else if x == 0x74 {
        Some(0x09u8)
    } else if x == 0x6e {
        Some(0x0au8)
    } else if x == 0x66 {
        Some(0x0cu8)
    } else if x == 0x72 {
        Some(0x0du8)
    } else {
        None
    }
}

/// Scanning a JSON string body (the bytes after the opening quote): the
/// unescaped content and the number of wire bytes consumed, closing quote
/// included; nothing when the body is not in canonical form.
pub open spec fn spec_unquote(w: Seq<u8>) -> Option<(Seq<u8>, int)>
    decreases w.len(),
{
    if w.len() == 0 {
        None
    } else if w[0] == 0x22 {
        Some((Seq::empty(), 1))
    } else if w[0] == 0x5c {
        if w.len() < 2 {
            None
        } else if w[1] == 0x75 {
            if w.len() < 6 {
                None
            } else if w[2] == 0x30 && w[3] == 0x30 && spec_is_hex_lower(w[4]) && spec_is_hex_lower(
                w[5],
            ) {
                let c = (spec_hex_val(w[4]) as int * 16 + spec_hex_val(w[5]) as int) as u8;
                if c < 0x20 && c != 0x08 && c != 0x09 && c != 0x0a && c != 0x0c && c != 0x0d {
                    match spec_unquote(w.skip(6)) {
                        Some(p) => Some((seq![c] + p.0, 6 + p.1)),
                        None => None,
                    }
                } else {
                    None
                }
            } else {
                None
            }
        } else {
            match spec_unescape_short(w[1]) {
                Some(c) => match spec_unquote(w.skip(2)) {
                    Some(p) => Some((seq![c] + p.0, 2 + p.1)),
                    None => None,
                },
                None => None,
            }
        }
    } else if w[0] >= 0x20 {
        match spec_unquote(w.skip(1)) {
            Some(p) => Some((seq![w[0]] + p.0, 1 + p.1)),
            None => None,
        }
    } else {
        None
    }
}

/// A whole quoted token over raw content bytes.
pub open spec fn spec_quoted_bytes(u: Seq<u8>) -> Seq<u8> {
    seq![0x22u8] + spec_escape_bytes(u) + seq![0x22u8]
}

/// The parse of a JSON string token starting at `pos`: content bytes and the
/// position just past the closing quote.
pub open spec fn spec_string_token_at(input: Seq<u8>, pos: int) -> Option<(Seq<u8>, int)> {
    if 0 <= pos < input.len() && input[pos] == 0x22 {
        match spec_unquote(input.skip(pos + 1)) {
            Some(p) => Some((p.0, pos + 1 + p.1)),
            None => None,
        }
    } else {
        None
    }
}

pub proof fn lemma_hex_digit_val(n: u8)
    requires
        n < 16,
    ensures
        spec_is_hex_lower(spec_hex_digit(n)),
        spec_hex_val(spec_hex_digit(n)) == n,
{
}

pub proof fn lemma_hex_val_digit(h: u8)
    requires
        spec_is_hex_lower(h),
    ensures
        spec_hex_val(h) < 16,
        spec_hex_digit(spec_hex_val(h)) == h,
{
}

/// Scanning past an escaped prefix: if the first `j` wire bytes are the
/// escaped form of `a`, the scan of the whole body is the scan of the rest
/// with `a` put in front.
pub proof fn lemma_unquote_prepend(a: Seq<u8>, w: Seq<u8>, j: int)
    requires
        0 <= j <= w.len(),
        spec_escape_bytes(a) == w.take(j),
    ensures
        spec_unquote(w) == match spec_unquote(w.skip(j)) {
            Some(p) => Some::<(Seq<u8>, int)>((a + p.0, j + p.1)),
            None => None::<(Seq<u8>, int)>,
        },
    decreases a.len(),
{
    if a.len() == 0 {
        assert(w.take(j).len() == j);
        assert(j == 0);
        assert(w.skip(0) =~= w);
        match spec_unquote(w) {
            Some(p) => {
                assert(a + p.0 =~= p.0);
            },
            None => {},
        }
    } else {
        let b = a[0];
        let e = spec_escape_byte(b);
        let k = e.len() as int;
        let tail = spec_escape_bytes(a.skip(1));
        assert(spec_escape_bytes(a) == e + tail);
        assert(j == k + tail.len());
        assert forall|t: int| 0 <= t < k implies w[t] == e[t] by {
            assert(w.take(j)[t] == w[t]);
            assert((e + tail)[t] == e[t]);
        }
        assert(w.skip(k).take(j - k) =~= tail) by {
            assert(forall|t: int|
                0 <= t < j - k ==> #[trigger] w.skip(k).take(j - k)[t] == w.take(j)[k + t]);
        }
        lemma_unquote_prepend(a.skip(1), w.skip(k), j - k);
        assert(w.skip(k).skip(j - k) =~= w.skip(j));
        // The head byte of the wire is never a quote, so the scan takes the
        // branch matching the escape that produced it.
        if b == 0x22 || b == 0x5c || b == 0x08 || b == 0x09 || b == 0x0a || b == 0x0c || b == 0x0d {
            assert(w[0] == 0x5c && w[1] == e[1]);
            assert(spec_unescape_short(e[1]) == Some(b));
            assert(w.skip(2) == w.skip(k));
        } else if b < 0x20 {
            assert(w[0] == 0x5c && w[1] == 0x75 && w[2] == 0x30 && w[3] == 0x30);
            assert(w[4] == spec_hex_digit(b / 16) && w[5] == spec_hex_digit(b % 16));
            lemma_hex_digit_val(b / 16);
            lemma_hex_digit_val(b % 16);
            assert((spec_hex_val(w[4]) as int * 16 + spec_hex_val(w[5]) as int) as u8 == b);
            assert(w.skip(6) == w.skip(k));
        } else {
            assert(w[0] == b && b != 0x22 && b != 0x5c && b >= 0x20);
            assert(w.skip(1) == w.skip(k));
        }
        match spec_unquote(w.skip(j)) {
            Some(p) => {
                assert(seq![b] + (a.skip(1) + p.0) =~= a + p.0);
            },
            None => {},
        }
    }
}

/// The scan of the escaped form of `u` followed by a closing quote yields
/// `u` itself, whatever comes after the quote.
pub proof fn lemma_unquote_of_escaped(u: Seq<u8>, rest: Seq<u8>)
    ensures
        spec_unquote(spec_escape_bytes(u) + seq![0x22u8] + rest) == Some::<(Seq<u8>, int)>(
            (u, spec_escape_bytes(u).len() as int + 1),
        ),
{
    let w = spec_escape_bytes(u) + seq![0x22u8] + rest;
    let j = spec_escape_bytes(u).len() as int;
    assert(w.take(j) =~= spec_escape_bytes(u));
    lemma_unquote_prepend(u, w, j);
    assert(w.skip(j)[0] == 0x22);
    assert(u + Seq::<u8>::empty() =~= u);
}

/// A successful scan consumed exactly the escaped form of its result plus
/// the closing quote.
pub proof fn lemma_unquote_sound(w: Seq<u8>, u: Seq<u8>, n: int)
    requires
        spec_unquote(w) == Some((u, n)),
    ensures
        1 <= n <= w.len(),
        w.take(n) == spec_escape_bytes(u) + seq![0x22u8],
    decreases w.len(),
{
    if w[0] == 0x22 {
        assert(w.take(1) =~= seq![0x22u8]);
        assert(spec_escape_bytes(u) + seq![0x22u8] =~= seq![0x22u8]);
    } else if w[0] == 0x5c {
        if w[1] == 0x75 {
            let c = (spec_hex_val(w[4]) as int * 16 + spec_hex_val(w[5]) as int) as u8;
            let p = spec_unquote(w.skip(6)).unwrap();
            lemma_unquote_sound(w.skip(6), p.0, p.1);
            lemma_hex_val_digit(w[4]);
            lemma_hex_val_digit(w[5]);
            assert(spec_hex_val(w[4]) == c / 16 && spec_hex_val(w[5]) == c % 16);
            assert(spec_escape_byte(c) =~= w.take(6));
            assert(u == seq![c] + p.0 && u[0] == c && u.skip(1) =~= p.0);
            assert(spec_escape_bytes(u) == spec_escape_byte(c) + spec_escape_bytes(p.0));
            assert(w.take(n) =~= w.take(6) + w.skip(6).take(p.1));
            assert(w.take(n) =~= spec_escape_bytes(u) + seq![0x22u8]);
        } else {
            let c = spec_unescape_short(w[1]).unwrap();
            let p = spec_unquote(w.skip(2)).unwrap();
            lemma_unquote_sound(w.skip(2), p.0, p.1);
            assert(spec_escape_byte(c) =~= w.take(2));
            assert(u == seq![c] + p.0 && u[0] == c && u.skip(1) =~= p.0);
            assert(spec_escape_bytes(u) == spec_escape_byte(c) + spec_escape_bytes(p.0));
            assert(w.take(n) =~= w.take(2) + w.skip(2).take(p.1));
            assert(w.take(n) =~= spec_escape_bytes(u) + seq![0x22u8]);
        }
    } else {
        let c = w[0];
        let p = spec_unquote(w.skip(1)).unwrap();
        lemma_unquote_sound(w.skip(1), p.0, p.1);
        assert(spec_escape_byte(c) =~= w.take(1));
        assert(u == seq![c] + p.0 && u[0] == c && u.skip(1) =~= p.0);
        assert(spec_escape_bytes(u) == spec_escape_byte(c) + spec_escape_bytes(p.0));
        assert(w.take(n) =~= w.take(1) + w.skip(1).take(p.1));
        assert(w.take(n) =~= spec_escape_bytes(u) + seq![0x22u8]);
    }
}

} // verus!

verus! {

/// Relies on `String::from_utf8`: it succeeds exactly on valid UTF-8 and
/// yields the decoded characters.
#[verifier::external_body]
pub(crate) fn bytes_to_string(v: Vec<u8>) -> (r: Option<String>)
    ensures
        match r {
            Some(s) => valid_utf8(v@) && s@ == decode_utf8(v@),
            None => !valid_utf8(v@),
        },
{
    String::from_utf8(v).ok()
}

fn unescape_short_exec(x: u8) -> (r: Option<u8>)
    ensures
        r == spec_unescape_short(x),
{
    if x == 0x22 {
        Some(0x22)
    } else if x == 0x5c {
        Some(0x5c)
    } else if x == 0x62 {
        Some(0x08)
    } else if x == 0x74 {
        Some(0x09)
    } else if x == 0x6e {
        Some(0x0a)
    } else if x == 0x66 {
        Some(0x0c)
    } else if x == 0x72 {
        Some(0x0d)
    } else {
        None
    }
}

fn is_hex_lower_exec(b: u8) -> (r: bool)
    ensures
        r == spec_is_hex_lower(b),
{
    (0x30 <= b && b <= 0x39) || (0x61 <= b && b <= 0x66)
}

fn hex_val_exec(b: u8) -> (r: u8)
    requires
        spec_is_hex_lower(b),
    ensures
        r == spec_hex_val(b),
        r < 16,
{
    if b <= 0x39 {
        b - 0x30
    } else {
        (b - 0x61) + 10
    }
}

/// Parses the canonical JSON string token at `pos`: the token's characters
/// and the position just past its closing quote. Fails exactly where the
/// canonical-form scan fails or where the content is not valid UTF-8.
pub fn parse_json_string(input: &Vec<u8>, pos: usize) -> (r: Option<(String, usize)>)
    ensures
        match r {
            Some(v) => {
                &&& spec_string_token_at(input@, pos as int) matches Some(p)
                &&& valid_utf8(spec_string_token_at(input@, pos as int).unwrap().0)
                &&& v.0@ == decode_utf8(spec_string_token_at(input@, pos as int).unwrap().0)
                &&& v.1 == spec_string_token_at(input@, pos as int).unwrap().1
                &&& pos < v.1 <= input@.len()
            },
            None => spec_string_token_at(input@, pos as int) matches Some(p) ==> !valid_utf8(p.0),
        },
{
    let n = input.len();
    if pos >= n || input[pos] != 0x22 {
        return None;
    }
    let ghost w = input@.skip(pos as int + 1);
    let mut acc: Vec<u8> = Vec::new();
    let mut i: usize = pos + 1;
    loop
        invariant
            pos + 1 <= i <= n,
            n == input@.len(),
            w == input@.skip(pos as int + 1),
            spec_escape_bytes(acc@) == w.take(i - pos - 1),
            pos < n,
            input@[pos as int] == 0x22,
        decreases n - i,
    {
        let ghost j = i - pos - 1;
        proof {
            lemma_unquote_prepend(acc@, w, j);
            assert(forall|t: int|
                0 <= t < w.len() - j ==> #[trigger] w.skip(j)[t] == input@[i + t]);
        }
        if i >= n {
            assert(w.skip(j).len() == 0);
            return None;
        }
        let b = input[i];
        if b == 0x22 {
            proof {
                assert(w.skip(j)[0] == 0x22);
                assert(spec_unquote(w.skip(j)) == Some((Seq::<u8>::empty(), 1int)));
                assert(acc@ + Seq::<u8>::empty() =~= acc@);
                assert(spec_unquote(w) == Some((acc@, j + 1)));
            }
            let ghost u = acc@;
            match bytes_to_string(acc) {
                Some(s) => {
                    return Some((s, i + 1));
                },
                None => {
                    return None;
                },
            }
        } else if b == 0x5c {
            if i + 1 >= n {
                assert(w.skip(j).len() == 1 && w.skip(j)[0] == 0x5c);
                return None;
            }
            let x = input[i + 1];
            if x == 0x75 {
                if n - i < 6 {
                    assert(w.skip(j).len() < 6 && w.skip(j)[0] == 0x5c && w.skip(j)[1] == 0x75);
                    return None;
                }
                let d2 = input[i + 2];
                let d3 = input[i + 3];
                let h1 = input[i + 4];
                let h2 = input[i + 5];
                assert(w.skip(j)[2] == d2 && w.skip(j)[3] == d3 && w.skip(j)[4] == h1 && w.skip(j)[5]
                    == h2);
                if d2 == 0x30 && d3 == 0x30 && is_hex_lower_exec(h1) && is_hex_lower_exec(h2) {
                    let v1 = hex_val_exec(h1);
                    let v2 = hex_val_exec(h2);
                    let c = v1 * 16 + v2;
                    if c < 0x20 && c != 0x08 && c != 0x09 && c != 0x0a && c != 0x0c && c != 0x0d {
                        proof {
                            lemma_escape_bytes_push(acc@, c);
                            lemma_hex_val_digit(h1);
                            lemma_hex_val_digit(h2);
                            assert(c / 16 == v1 && c % 16 == v2);
                            assert(spec_escape_byte(c) =~= seq![
                                0x5cu8,
                                0x75u8,
                                0x30u8,
                                0x30u8,
                                h1,
                                h2,
                            ]);
                            assert(w.take(i + 6 - pos - 1) =~= w.take(j) + spec_escape_byte(c));
                        }
                        acc.push(c);
                        i = i + 6;
                    } else {
                        return None;
                    }
                } else {
                    return None;
                }
            } else {
                match unescape_short_exec(x) {
                    Some(c) => {
                        proof {
                            lemma_escape_bytes_push(acc@, c);
                            assert(spec_escape_byte(c) =~= seq![0x5cu8, x]);
                            assert(w.take(i + 2 - pos - 1) =~= w.take(j) + spec_escape_byte(c));
                        }
                        acc.push(c);
                        i = i + 2;
                    },
                    None => {
                        return None;
                    },
                }
            }
        } else if b >= 0x20 {
            proof {
                lemma_escape_bytes_push(acc@, b);
                assert(spec_escape_byte(b) =~= seq![b]);
                assert(w.take(i + 1 - pos - 1) =~= w.take(j) + spec_escape_byte(b));
            }
            acc.push(b);
            i = i + 1;
        } else {
            return None;
        }
    }
}

/// The two sides of the string codec are inverses: parsing is owed success
/// exactly on a canonical token, and a successful parse consumed exactly one
/// canonical token.
pub proof fn lemma_string_token_complete(input: Seq<u8>, pos: int, s: Seq<char>)
    requires
        0 <= pos,
        pos + spec_json_string(s).len() <= input.len(),
        input.subrange(pos, pos + spec_json_string(s).len() as int) == spec_json_string(s),
    ensures
        spec_string_token_at(input, pos) == Some(
            (encode_utf8(s), pos + spec_json_string(s).len() as int),
        ),
        valid_utf8(encode_utf8(s)),
        decode_utf8(encode_utf8(s)) == s,
{
    broadcast use vstd::utf8::encode_utf8_valid_utf8, vstd::utf8::encode_utf8_decode_utf8;

    let tok = spec_json_string(s);
    let e = spec_escape_bytes(encode_utf8(s));
    assert(input[pos] == tok[0] && tok[0] == 0x22);
    let rest = input.skip(pos + tok.len() as int);
    assert(input.skip(pos + 1) =~= e + seq![0x22u8] + rest) by {
        assert(forall|t: int|
            0 <= t < tok.len() - 1 ==> #[trigger] input.skip(pos + 1)[t] == tok[t + 1]);
    }
    lemma_unquote_of_escaped(encode_utf8(s), rest);
}

/// A successful token parse means the consumed bytes are exactly the
/// canonical token of the decoded characters.
pub proof fn lemma_string_token_sound(input: Seq<u8>, pos: int, u: Seq<u8>, e: int)
    requires
        spec_string_token_at(input, pos) == Some((u, e)),
        valid_utf8(u),
    ensures
        pos + 1 <= e <= input.len(),
        input.subrange(pos, e) == spec_json_string(decode_utf8(u)),
        spec_json_string(decode_utf8(u)).len() == e - pos,
{
    broadcast use vstd::utf8::decode_utf8_encode_utf8;

    let w = input.skip(pos + 1);
    let p = spec_unquote(w).unwrap();
    lemma_unquote_sound(w, p.0, p.1);
    assert(encode_utf8(decode_utf8(u)) == u);
    assert(input.subrange(pos, e) =~= seq![0x22u8] + w.take(p.1));
    assert(input.subrange(pos, e) =~= spec_json_string(decode_utf8(u)));
}

} // verus!

verus! {

/// ASCII decimal digit?
pub open spec fn spec_is_digit(b: u8) -> bool {
    0x30 <= b <= 0x39
}

/// Canonical decimal form of a byte: one to three digits, no leading zero.
pub open spec fn spec_u8_decimal(n: u8) -> Seq<u8> {
    if n < 10 {
        seq![(0x30 + n) as u8]
    } else if n < 100 {
        seq![(0x30 + n / 10) as u8, (0x30 + n % 10) as u8]
    } else {
        seq![(0x30 + n / 100) as u8, (0x30 + (n / 10) % 10) as u8, (0x30 + n % 10) as u8]
    }
}

/// Greedy parse of a canonical decimal byte at the head of `w`: its value
/// and how many digits it took. Leading zeros, four digits in a row and
/// values over 255 are not canonical.
pub open spec fn spec_parse_u8_head(w: Seq<u8>) -> Option<(u8, int)> {
    if w.len() >= 1 && spec_is_digit(w[0]) {
        if w.len() >= 2 && spec_is_digit(w[1]) {
            if w.len() >= 3 && spec_is_digit(w[2]) {
                if (w.len() >= 4 && spec_is_digit(w[3])) || w[0] == 0x30 {
                    None
                } else {
                    let v = (w[0] - 0x30) as int * 100 + (w[1] - 0x30) as int * 10 + (w[2]
                        - 0x30) as int;
                    if v <= 255 {
                        Some((v as u8, 3))
                    } else {
                        None
                    }
                }
            } else if w[0] == 0x30 {
                None
            } else {
                Some((((w[0] - 0x30) as int * 10 + (w[1] - 0x30) as int) as u8, 2))
            }
        } else {
            Some(((w[0] - 0x30) as u8, 1))
        }
    } else {
        None
    }
}

/// A successful decimal parse consumed exactly the canonical form of its
/// value, and stopped right before a non-digit.
pub proof fn lemma_parse_u8_sound(w: Seq<u8>, b: u8, n: int)
    requires
        spec_parse_u8_head(w) == Some((b, n)),
    ensures
        1 <= n <= 3 && n <= w.len(),
        w.take(n) == spec_u8_decimal(b),
        n == w.len() || !spec_is_digit(w[n]),
{
    if w.len() >= 2 && spec_is_digit(w[1]) {
        if w.len() >= 3 && spec_is_digit(w[2]) {
            let v = (w[0] - 0x30) as int * 100 + (w[1] - 0x30) as int * 10 + (w[2] - 0x30) as int;
            assert(v == b && v >= 100);
            assert(b / 100 == (w[0] - 0x30) as int && (b / 10) % 10 == (w[1] - 0x30) as int && b
                % 10 == (w[2] - 0x30) as int);
            assert(w.take(3) =~= spec_u8_decimal(b));
        } else {
            let v = (w[0] - 0x30) as int * 10 + (w[1] - 0x30) as int;
            assert(v == b && 10 <= v < 100);
            assert(b / 10 == (w[0] - 0x30) as int && b % 10 == (w[1] - 0x30) as int);
            assert(w.take(2) =~= spec_u8_decimal(b));
        }
    } else {
        assert(w.take(1) =~= spec_u8_decimal(b));
    }
}

/// Parsing is owed success on a canonical decimal followed by a non-digit.
pub proof fn lemma_parse_u8_complete(w: Seq<u8>, b: u8)
    requires
        spec_u8_decimal(b).len() <= w.len(),
        w.take(spec_u8_decimal(b).len() as int) == spec_u8_decimal(b),
        spec_u8_decimal(b).len() < w.len() ==> !spec_is_digit(w[spec_u8_decimal(b).len() as int]),
    ensures
        spec_parse_u8_head(w) == Some((b, spec_u8_decimal(b).len() as int)),
{
    let d = spec_u8_decimal(b);
    if b < 10 {
        assert(w[0] == d[0]);
        assert(spec_is_digit(w[0]));
        assert(w.len() >= 2 ==> !spec_is_digit(w[1]));
        assert((w[0] - 0x30) as u8 == b);
    } else if b < 100 {
        assert(w[0] == d[0] && w[1] == d[1]);
        assert(spec_is_digit(w[0]) && spec_is_digit(w[1]));
        assert(w.len() >= 3 ==> !spec_is_digit(w[2]));
        assert(w[0] != 0x30);
        assert(((w[0] - 0x30) as int * 10 + (w[1] - 0x30) as int) == b);
    } else {
        assert(w[0] == d[0] && w[1] == d[1] && w[2] == d[2]);
        assert(spec_is_digit(w[0]) && spec_is_digit(w[1]) && spec_is_digit(w[2]));
        assert(w.len() >= 4 ==> !spec_is_digit(w[3]));
        assert(w[0] != 0x30);
        assert(((w[0] - 0x30) as int * 100 + (w[1] - 0x30) as int * 10 + (w[2] - 0x30) as int)
            == b);
    }
}

fn parse_u8_head(input: &Vec<u8>, pos: usize) -> (r: Option<(u8, usize)>)
    requires
        pos <= input@.len(),
    ensures
        match r {
            Some(v) => {
                &&& spec_parse_u8_head(input@.skip(pos as int)) == Some((v.0, v.1 - pos as int))
                &&& pos < v.1 <= input@.len()
            },
            None => spec_parse_u8_head(input@.skip(pos as int)) is None,
        },
{
    let n = input.len();
    let ghost w = input@.skip(pos as int);
    proof {
        assert(forall|t: int| 0 <= t < w.len() ==> #[trigger] w[t] == input@[pos + t]);
    }
    if pos >= n || !(0x30 <= input[pos] && input[pos] <= 0x39) {
        return None;
    }
    let d0 = input[pos] - 0x30;
    if pos + 1 >= n || !(0x30 <= input[pos + 1] && input[pos + 1] <= 0x39) {
        return Some((d0, pos + 1));
    }
    let d1 = input[pos + 1] - 0x30;
    if n - pos < 3 || !(0x30 <= input[pos + 2] && input[pos + 2] <= 0x39) {
        if d0 == 0 {
            return None;
        }
        return Some((d0 * 10 + d1, pos + 2));
    }
    let d2 = input[pos + 2] - 0x30;
    if (n - pos >= 4 && 0x30 <= input[pos + 3] && input[pos + 3] <= 0x39) || d0 == 0 {
        return None;
    }
    let v: u32 = (d0 as u32) * 100 + (d1 as u32) * 10 + (d2 as u32);
    if v <= 255 {
        Some((v as u8, pos + 3))
    } else {
        None
    }
}

} // verus!

verus! {

/// The items of a JSON array of decimal bytes, comma separated.
pub open spec fn spec_array_items(s: Seq<u8>) -> Seq<u8>
    decreases s.len(),
{
    if s.len() == 0 {
        Seq::empty()
    } else if s.len() == 1 {
        spec_u8_decimal(s[0])
    } else {
        spec_u8_decimal(s[0]) + seq![0x2cu8] + spec_array_items(s.skip(1))
    }
}

/// Every item followed by a comma; the shape of an array body whose tail is
/// still to come.
pub open spec fn spec_items_and_commas(s: Seq<u8>) -> Seq<u8>
    decreases s.len(),
{
    if s.len() == 0 {
        Seq::empty()
    } else {
        spec_u8_decimal(s[0]) + seq![0x2cu8] + spec_items_and_commas(s.skip(1))
    }
}

/// A JSON array of bytes, each written as a canonical decimal.
pub open spec fn spec_json_byte_array(s: Seq<u8>) -> Seq<u8> {
    seq![0x5bu8] + spec_array_items(s) + seq![0x5du8]
}

pub proof fn lemma_items_and_commas_snoc(s: Seq<u8>, b: u8)
    ensures
        spec_items_and_commas(s.push(b)) == spec_items_and_commas(s) + spec_u8_decimal(b) + seq![
            0x2cu8,
        ],
    decreases s.len(),
{
    if s.len() == 0 {
        reveal_with_fuel(spec_items_and_commas, 2);
        assert(s.push(b)[0] == b);
        assert(s.push(b).skip(1) =~= Seq::<u8>::empty());
        assert(spec_items_and_commas(s.push(b)) =~= spec_items_and_commas(s) + spec_u8_decimal(b)
            + seq![0x2cu8]);
    } else {
        assert(s.push(b).skip(1) =~= s.skip(1).push(b));
        lemma_items_and_commas_snoc(s.skip(1), b);
        assert(spec_items_and_commas(s.push(b)) =~= spec_items_and_commas(s) + spec_u8_decimal(b)
            + seq![0x2cu8]);
    }
}

/// A nonempty array body is its leading items-with-commas followed by a last
/// item.
pub proof fn lemma_array_items_split_last(s: Seq<u8>)
    requires
        s.len() >= 1,
    ensures
        spec_array_items(s) == spec_items_and_commas(s.take(s.len() - 1)) + spec_u8_decimal(
            s[s.len() - 1],
        ),
    decreases s.len(),
{
    if s.len() == 1 {
        assert(s.take(0) =~= Seq::<u8>::empty());
    } else {
        lemma_array_items_split_last(s.skip(1));
        assert(s.skip(1).take(s.skip(1).len() - 1) =~= s.take(s.len() - 1).skip(1));
        assert(s.skip(1)[s.skip(1).len() - 1] == s[s.len() - 1]);
        assert(s.take(s.len() - 1)[0] == s[0]);
        assert(spec_array_items(s) =~= spec_items_and_commas(s.take(s.len() - 1))
            + spec_u8_decimal(s[s.len() - 1]));
    }
}

/// Parse of a nonempty array body: the bytes and how much was consumed,
/// closing bracket included.
pub open spec fn spec_parse_items(w: Seq<u8>) -> Option<(Seq<u8>, int)>
    decreases w.len(),
{
    match spec_parse_u8_head(w) {
        Some(p) => {
            if 1 <= p.1 && p.1 < w.len() && w[p.1] == 0x5d {
                Some((seq![p.0], p.1 + 1))
            } else if 1 <= p.1 && p.1 < w.len() && w[p.1] == 0x2c {
                match spec_parse_items(w.skip(p.1 + 1)) {
                    Some(q) => Some((seq![p.0] + q.0, p.1 + 1 + q.1)),
                    None => None,
                }
            } else {
                None
            }
        },
        None => None,
    }
}

/// Parse of a whole byte-array token at `pos`.
pub open spec fn spec_byte_array_token_at(input: Seq<u8>, pos: int) -> Option<(Seq<u8>, int)> {
    if 0 <= pos < input.len() && input[pos] == 0x5b {
        if pos + 1 < input.len() && input[pos + 1] == 0x5d {
            Some((Seq::empty(), pos + 2))
        } else {
            match spec_parse_items(input.skip(pos + 1)) {
                Some(p) => Some((p.0, pos + 1 + p.1)),
                None => None,
            }
        }
    } else {
        None
    }
}

/// Scanning past already-parsed leading items: the parse of the whole body
/// is the parse of the rest with those items put in front.
pub proof fn lemma_parse_items_prepend(a: Seq<u8>, w: Seq<u8>, j: int)
    requires
        0 <= j <= w.len(),
        spec_items_and_commas(a) == w.take(j),
    ensures
        spec_parse_items(w) == match spec_parse_items(w.skip(j)) {
            Some(p) => Some::<(Seq<u8>, int)>((a + p.0, j + p.1)),
            None => None::<(Seq<u8>, int)>,
        },
    decreases a.len(),
{
    if a.len() == 0 {
        assert(j == 0);
        assert(w.skip(0) =~= w);
        match spec_parse_items(w) {
            Some(p) => {
                assert(a + p.0 =~= p.0);
            },
            None => {},
        }
    } else {
        let b = a[0];
        let d = spec_u8_decimal(b);
        let k = d.len() as int + 1;
        let tail = spec_items_and_commas(a.skip(1));
        assert(spec_items_and_commas(a) == d + seq![0x2cu8] + tail);
        assert(j == k + tail.len());
        assert forall|t: int| 0 <= t < k implies w[t] == (d + seq![0x2cu8])[t] by {
            assert(w.take(j)[t] == w[t]);
            assert((d + seq![0x2cu8] + tail)[t] == (d + seq![0x2cu8])[t]);
        }
        assert(w.take(d.len() as int) =~= d);
        assert(w[d.len() as int] == 0x2c);
        lemma_parse_u8_complete(w, b);
        assert(spec_parse_u8_head(w) == Some((b, d.len() as int)));
        assert(w.skip(k).take(j - k) =~= tail) by {
            assert(forall|t: int|
                0 <= t < j - k ==> #[trigger] w.skip(k).take(j - k)[t] == w.take(j)[k + t]);
        }
        lemma_parse_items_prepend(a.skip(1), w.skip(k), j - k);
        assert(w.skip(k).skip(j - k) =~= w.skip(j));
        match spec_parse_items(w.skip(j)) {
            Some(p) => {
                assert(seq![b] + (a.skip(1) + p.0) =~= a + p.0);
            },
            None => {},
        }
    }
}

/// A successful body parse consumed exactly the canonical items plus the
/// closing bracket.
pub proof fn lemma_parse_items_sound(w: Seq<u8>, s: Seq<u8>, n: int)
    requires
        spec_parse_items(w) == Some((s, n)),
    ensures
        s.len() >= 1,
        1 <= n <= w.len(),
        w.take(n) == spec_array_items(s) + seq![0x5du8],
    decreases w.len(),
{
    let p = spec_parse_u8_head(w).unwrap();
    lemma_parse_u8_sound(w, p.0, p.1);
    if w[p.1] == 0x5d {
        assert(s =~= seq![p.0]);
        assert(spec_array_items(s) == spec_u8_decimal(p.0));
        assert(w.take(n) =~= w.take(p.1) + seq![0x5du8]);
    } else {
        let q = spec_parse_items(w.skip(p.1 + 1)).unwrap();
        lemma_parse_items_sound(w.skip(p.1 + 1), q.0, q.1);
        assert(s == seq![p.0] + q.0);
        assert(s[0] == p.0 && s.skip(1) =~= q.0);
        assert(s.len() >= 2);
        assert(spec_array_items(s) == spec_u8_decimal(p.0) + seq![0x2cu8] + spec_array_items(q.0));
        assert(w.take(n) =~= w.take(p.1) + seq![0x2cu8] + w.skip(p.1 + 1).take(q.1));
        assert(w.take(n) =~= spec_array_items(s) + seq![0x5du8]);
    }
}

/// A body parse is owed success on canonical items followed by the closing
/// bracket, whatever follows.
pub proof fn lemma_parse_items_complete(w: Seq<u8>, s: Seq<u8>)
    requires
        s.len() >= 1,
        spec_array_items(s).len() + 1 <= w.len(),
        w.take(spec_array_items(s).len() as int + 1) == spec_array_items(s) + seq![0x5du8],
    ensures
        spec_parse_items(w) == Some((s, spec_array_items(s).len() as int + 1)),
    decreases s.len(),
{
    let items = spec_array_items(s);
    let b = s[0];
    let d = spec_u8_decimal(b);
    if s.len() == 1 {
        assert(items == d);
        assert forall|t: int| 0 <= t < d.len() + 1 implies w[t] == (d + seq![0x5du8])[t] by {
            assert(w.take(items.len() as int + 1)[t] == w[t]);
        }
        assert(w.take(d.len() as int) =~= d);
        assert(w[d.len() as int] == 0x5d);
        lemma_parse_u8_complete(w, b);
        assert(seq![b] =~= s);
    } else {
        let tail = spec_array_items(s.skip(1));
        assert(items == d + seq![0x2cu8] + tail);
        assert forall|t: int| 0 <= t < items.len() + 1 implies w[t] == (items + seq![0x5du8])[t] by {
            assert(w.take(items.len() as int + 1)[t] == w[t]);
        }
        assert(w.take(d.len() as int) =~= d);
        assert(w[d.len() as int] == 0x2c);
        lemma_parse_u8_complete(w, b);
        let k = d.len() as int + 1;
        assert(w.skip(k).take(tail.len() as int + 1) =~= tail + seq![0x5du8]) by {
            assert(forall|t: int|
                0 <= t < tail.len() + 1 ==> #[trigger] w.skip(k).take(tail.len() as int + 1)[t] == w[k
                    + t]);
        }
        lemma_parse_items_complete(w.skip(k), s.skip(1));
        assert(seq![b] + s.skip(1) =~= s);
    }
}

} // verus!

verus! {

pub fn append_u8_decimal(out: &mut Vec<u8>, b: u8)
    ensures
        final(out)@ == old(out)@ + spec_u8_decimal(b),
{
    if b < 10 {
        out.push(0x30 + b);
        assert(final(out)@ =~= old(out)@ + spec_u8_decimal(b));
    } else if b < 100 {
        out.push(0x30 + b / 10);
        out.push(0x30 + b % 10);
        assert(final(out)@ =~= old(out)@ + spec_u8_decimal(b));
    } else {
        out.push(0x30 + b / 100);
        out.push(0x30 + (b / 10) % 10);
        out.push(0x30 + b % 10);
        assert(final(out)@ =~= old(out)@ + spec_u8_decimal(b));
    }
}

/// Appends the canonical JSON array form of `data`, each byte a decimal.
pub fn append_json_byte_array(out: &mut Vec<u8>, data: &Vec<u8>)
    ensures
        final(out)@ == old(out)@ + spec_json_byte_array(data@),
{
    out.push(0x5b);
    let n = data.len();
    if n > 0 {
        let mut i: usize = 0;
        while i < n - 1
            invariant
                i <= n - 1,
                n >= 1,
                n == data@.len(),
                out@ == old(out)@ + seq![0x5bu8] + spec_items_and_commas(data@.take(i as int)),
            decreases n - i,
        {
            let b = data[i];
            append_u8_decimal(out, b);
            out.push(0x2c);
            proof {
                lemma_items_and_commas_snoc(data@.take(i as int), b);
                assert(data@.take(i as int + 1) =~= data@.take(i as int).push(b));
                assert(out@ =~= old(out)@ + seq![0x5bu8] + spec_items_and_commas(
                    data@.take(i as int + 1),
                ));
            }
            i = i + 1;
        }
        let b = data[n - 1];
        append_u8_decimal(out, b);
        proof {
            lemma_array_items_split_last(data@);
            assert(data@.take(n - 1) =~= data@.take(n as int - 1));
            assert(out@ =~= old(out)@ + seq![0x5bu8] + spec_array_items(data@));
        }
    }
    out.push(0x5d);
    assert(final(out)@ =~= old(out)@ + spec_json_byte_array(data@));
}

/// Parses the canonical JSON byte-array token at `pos`: the bytes and the
/// position just past the closing bracket. Fails exactly where the token is
/// not in canonical form.
pub fn parse_json_byte_array(input: &Vec<u8>, pos: usize) -> (r: Option<(Vec<u8>, usize)>)
    ensures
        match r {
            Some(v) => {
                &&& spec_byte_array_token_at(input@, pos as int) matches Some(p)
                &&& v.0@ == spec_byte_array_token_at(input@, pos as int).unwrap().0
                &&& v.1 == spec_byte_array_token_at(input@, pos as int).unwrap().1
                &&& pos < v.1 <= input@.len()
            },
            None => spec_byte_array_token_at(input@, pos as int) is None,
        },
{
    let n = input.len();
    if pos >= n || input[pos] != 0x5b {
        return None;
    }
    if pos + 1 < n && input[pos + 1] == 0x5d {
        return Some((Vec::new(), pos + 2));
    }
    let ghost w = input@.skip(pos as int + 1);
    let mut acc: Vec<u8> = Vec::new();
    let mut i: usize = pos + 1;
    loop
        invariant
            pos + 1 <= i <= n,
            n == input@.len(),
            w == input@.skip(pos as int + 1),
            spec_items_and_commas(acc@) == w.take(i - pos - 1),
            pos < n,
            input@[pos as int] == 0x5b,
            !(pos + 1 < n && input@[pos as int + 1] == 0x5d),
        decreases n - i,
    {
        let ghost j = i - pos - 1;
        proof {
            lemma_parse_items_prepend(acc@, w, j);
            assert(w.skip(j) =~= input@.skip(i as int));
        }
        match parse_u8_head(input, i) {
            None => {
                return None;
            },
            Some((b, i2)) => {
                let ghost m = i2 - i;
                proof {
                    assert(spec_parse_u8_head(w.skip(j)) == Some((b, m)));
                    lemma_parse_u8_sound(w.skip(j), b, m);
                }
                if i2 < n && input[i2] == 0x5d {
                    proof {
                        assert(w.skip(j)[m] == input@[i2 as int]);
                        assert(spec_parse_items(w.skip(j)) == Some((seq![b], m + 1)));
                    }
                    let ghost acc_old = acc@;
                    acc.push(b);
                    proof {
                        assert(acc@ =~= acc_old + seq![b]);
                    }
                    return Some((acc, i2 + 1));
                } else if i2 < n && input[i2] == 0x2c {
                    proof {
                        assert(w.skip(j)[m] == input@[i2 as int]);
                        lemma_items_and_commas_snoc(acc@, b);
                        assert(w.skip(j).take(m) =~= w.subrange(j, j + m));
                        assert(w.take(i2 + 1 - pos - 1) =~= w.take(j) + spec_u8_decimal(b) + seq![
                            0x2cu8,
                        ]);
                        assert(spec_items_and_commas(acc@.push(b)) == w.take(i2 + 1 - pos - 1));
                    }
                    acc.push(b);
                    i = i2 + 1;
                } else {
                    proof {
                        assert(i2 < n ==> w.skip(j)[m] == input@[i2 as int]);
                        assert(spec_parse_items(w.skip(j)) is None);
                    }
                    return None;
                }
            },
        }
    }
}

/// The two sides of the byte-array codec are inverses.
pub proof fn lemma_byte_array_complete(input: Seq<u8>, pos: int, s: Seq<u8>)
    requires
        0 <= pos,
        pos + spec_json_byte_array(s).len() <= input.len(),
        input.subrange(pos, pos + spec_json_byte_array(s).len() as int) == spec_json_byte_array(s),
    ensures
        spec_byte_array_token_at(input, pos) == Some(
            (s, pos + spec_json_byte_array(s).len() as int),
        ),
{
    let tok = spec_json_byte_array(s);
    assert(input[pos] == tok[0] && tok[0] == 0x5b);
    if s.len() == 0 {
        assert(input[pos + 1] == tok[1] && tok[1] == 0x5d);
    } else {
        let items = spec_array_items(s);
        assert(input[pos + 1] == tok[1]);
        assert(tok[1] == items[0]);
        assert(items.len() >= 1);
        assert(items[0] == spec_u8_decimal(s[0])[0]);
        assert(spec_is_digit(items[0]));
        assert(input[pos + 1] != 0x5d);
        let w = input.skip(pos + 1);
        assert(w.take(items.len() as int + 1) =~= items + seq![0x5du8]) by {
            assert(forall|t: int|
                0 <= t < items.len() + 1 ==> #[trigger] w.take(items.len() as int + 1)[t] == tok[1
                    + t]);
        }
        lemma_parse_items_complete(w, s);
    }
}

pub proof fn lemma_byte_array_sound(input: Seq<u8>, pos: int, s: Seq<u8>, e: int)
    requires
        spec_byte_array_token_at(input, pos) == Some((s, e)),
    ensures
        pos + 2 <= e <= input.len(),
        input.subrange(pos, e) == spec_json_byte_array(s),
        spec_json_byte_array(s).len() == e - pos,
{
    if pos + 1 < input.len() && input[pos + 1] == 0x5d {
        assert(input.subrange(pos, e) =~= spec_json_byte_array(s));
    } else {
        let w = input.skip(pos + 1);
        let p = spec_parse_items(w).unwrap();
        lemma_parse_items_sound(w, p.0, p.1);
        assert(input.subrange(pos, e) =~= seq![0x5bu8] + w.take(p.1));
        assert(input.subrange(pos, e) =~= spec_json_byte_array(s));
    }
}

} // verus!

verus! {

/// Escaping at most six-folds the length.
pub proof fn lemma_escape_bytes_len(s: Seq<u8>)
    ensures
        spec_escape_bytes(s).len() <= 6 * s.len(),
    decreases s.len(),
{
    if s.len() > 0 {
        lemma_escape_bytes_len(s.skip(1));
    }
}

/// UTF-8 takes at most four bytes per character.
pub proof fn lemma_encode_utf8_len(s: Seq<char>)
    ensures
        encode_utf8(s).len() <= 4 * s.len(),
    decreases s.len(),
{
    if s.len() > 0 {
        lemma_encode_utf8_len(s.skip(1));
        assert(vstd::utf8::encode_scalar(s[0] as u32).len() <= 4);
    }
}

/// A string token takes at most two quotes plus twenty-four bytes per
/// character.
pub proof fn lemma_json_string_len(s: Seq<char>)
    ensures
        spec_json_string(s).len() <= 2 + 24 * s.len(),
{
    lemma_encode_utf8_len(s);
    lemma_escape_bytes_len(encode_utf8(s));
}

} // verus!
