//! What request and response logging shows of headers and bodies:
//! credentials are redacted, and bytes that are not text are summarized.

use vstd::prelude::*;

use crate::text::{owned, push_char, push_str, text_eq};

verus! {

/// Headers whose values are never logged: `authorization`,
/// `proxy-authorization`, `cookie` and `set-cookie` (canonical names).
pub open spec fn sensitive_spec(name: Seq<char>) -> bool {
    name == "authorization"@ || name == "proxy-authorization"@ || name == "cookie"@ || name == "set-cookie"@
}

/// Whether a header (by canonical name) is sensitive.
pub fn is_sensitive_header(name: &str) -> (r: bool)
    ensures
        r == sensitive_spec(name@),
{
    text_eq(name, "authorization") || text_eq(name, "proxy-authorization") || text_eq(name, "cookie")
        || text_eq(name, "set-cookie")
}

/// Whether a header value byte is visible ASCII or a tab.
pub open spec fn visible_ascii(b: u8) -> bool {
    (b >= 32 && b < 127) || b == 9
}

/// What logging shows for a header value: `<redacted>` for a sensitive
/// header; otherwise the value as text when all its bytes are visible ASCII
/// or tabs, else `<non-UTF-8>`.
pub open spec fn logged_header_spec(name: Seq<char>, value: Seq<u8>) -> Seq<char> {
    if sensitive_spec(name) {
        "<redacted>"@
    } else if forall|i: int| 0 <= i < value.len() ==> visible_ascii(#[trigger] value[i]) {
        value.map_values(|b: u8| b as char)
    } else {
        "<non-UTF-8>"@
    }
}

/// The logged form of a header value.
pub fn logged_header_value(name: &str, value: &[u8]) -> (r: String)
    ensures
        r@ == logged_header_spec(name@, value@),
{
    let sensitive = is_sensitive_header(name);
    if sensitive {
        return owned("<redacted>");
    }
    assert(!sensitive_spec(name@));
    let mut out = String::new();
    let mut i: usize = 0;
    while i < value.len()
        invariant
            i <= value.len(),
            !sensitive_spec(name@),
            forall|k: int| 0 <= k < i ==> visible_ascii(#[trigger] value@[k]),
            out@ == value@.take(i as int).map_values(|b: u8| b as char),
        decreases value.len() - i,
    {
        let b = value[i];
        if !((b >= 32 && b < 127) || b == 9) {
            proof {
                assert(!visible_ascii(value@[i as int]));
                assert(!(forall|k: int| 0 <= k < value@.len() ==> visible_ascii(#[trigger] value@[k])));

            }
            return owned("<non-UTF-8>");
        }
        push_char(&mut out, b as char);
        proof {
            assert(value@.take(i + 1).map_values(|b: u8| b as char) =~= value@.take(i as int).map_values(
                |b: u8| b as char,
            ).push(b as char));
        }
        i = i + 1;
    }
    proof {
        assert(value@.take(value.len() as int) =~= value@);
    }
    out
}

/// The decimal digits of a number.
pub open spec fn decimal_spec(n: nat) -> Seq<char>
    decreases n,
{
    if n < 10 {
        seq![(48 + n) as char]
    } else {
        decimal_spec(n / 10).push((48 + n % 10) as char)
    }
}

/// Writes a number in decimal.
pub fn decimal(n: usize) -> (r: String)
    ensures
        r@ == decimal_spec(n as nat),
    decreases n,
{
    if n < 10 {
        let mut s = String::new();
        push_char(&mut s, ((48 + n) as u8) as char);
        s
    } else {
        let mut s = decimal(n / 10);
        push_char(&mut s, ((48 + n % 10) as u8) as char);
        s
    }
}

/// Decodes bytes that are valid UTF-8 (`std::str::from_utf8`).
#[verifier::external_body]
pub fn utf8_text(bytes: &[u8]) -> (r: Option<String>)
    ensures
        r is Some <==> vstd::utf8::valid_utf8(bytes@),
        r matches Some(s) ==> s@ == vstd::utf8::decode_utf8(bytes@),
{
    match std::str::from_utf8(bytes) {
        Ok(s) => Some(s.to_owned()),
        Err(_) => None,
    }
}

/// What logging shows for a body: its text when it is valid UTF-8,
/// otherwise how many bytes it has.
pub open spec fn logged_body_spec(body: Seq<u8>) -> Seq<char> {
    if vstd::utf8::valid_utf8(body) {
        vstd::utf8::decode_utf8(body)
    } else {
        "<"@ + decimal_spec(body.len()) + " non-UTF-8 bytes>"@
    }
}

/// The logged form of a body.
pub fn logged_body(body: &[u8]) -> (r: String)
    ensures
        r@ == logged_body_spec(body@),
{
    match utf8_text(body) {
        Some(s) => s,
        None => {
            let mut s = owned("<");
            let n = decimal(body.len());
            push_str(&mut s, n.as_str());
            push_str(&mut s, " non-UTF-8 bytes>");
            s
        },
    }
}

} // verus!
