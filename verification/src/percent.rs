//! Percent-encoding of path parameter values as single path segments.

use vstd::prelude::*;

use crate::text::{push_char, push_str};
use vstd::string::StringSliceAdditionalSpecFns;

verus! {

/// Upper-case hexadecimal digit for a value below 16.
pub open spec fn hex_upper(v: int) -> char {
    if v < 10 {
        (48 + v) as char
    } else {
        (55 + v) as char
    }
}

/// The percent-encoding of one byte: `%` followed by two upper-case hex digits.
pub open spec fn percent_byte_spec(b: u8) -> Seq<char> {
    seq!['%', hex_upper(b as int / 16), hex_upper(b as int % 16)]
}

/// The ASCII bytes that a path parameter value must not contain literally:
/// the C0 controls and DEL, and space, `"`, `#`, `%`, `/`, `<`, `>`, `?`,
/// `` ` ``, `{` and `}`.
pub open spec fn in_path_segment_set(b: u8) -> bool {
    ||| b < 0x20
    ||| b == 0x7f
    ||| b == 0x20
    ||| b == 0x22
    ||| b == 0x23
    ||| b == 0x25
    ||| b == 0x2f
    ||| b == 0x3c
    ||| b == 0x3e
    ||| b == 0x3f
    ||| b == 0x60
    ||| b == 0x7b
    ||| b == 0x7d
}

/// Whether a byte is written percent-encoded: non-ASCII bytes and the bytes of
/// the path segment set.
pub open spec fn encodes_byte(b: u8) -> bool {
    b >= 0x80 || in_path_segment_set(b)
}

/// The output for one byte.
pub open spec fn segment_byte_spec(b: u8) -> Seq<char> {
    if encodes_byte(b) {
        percent_byte_spec(b)
    } else {
        seq![b as char]
    }
}

/// The percent-encoding of a byte sequence as one path segment.
pub open spec fn path_segment_spec(bytes: Seq<u8>) -> Seq<char>
    decreases bytes.len(),
{
    if bytes.len() == 0 {
        seq![]
    } else {
        path_segment_spec(bytes.drop_last()) + segment_byte_spec(bytes.last())
    }
}

/// `percent_encoding::percent_encode_byte`: the percent-encoding of one
/// byte, `%` followed by the byte's two upper-case hexadecimal digits.
#[verifier::external_body]
fn percent_encode_byte(byte: u8) -> (s: &'static str)
    ensures
        s@ == percent_byte_spec(byte),
{
    percent_encoding::percent_encode_byte(byte)
}

fn in_path_segment_set_exec(b: u8) -> (r: bool)
    ensures
        r == in_path_segment_set(b),
{
    b < 0x20 || b == 0x7f || b == 0x20 || b == 0x22 || b == 0x23 || b == 0x25 || b == 0x2f
        || b == 0x3c || b == 0x3e || b == 0x3f || b == 0x60 || b == 0x7b || b == 0x7d
}

/// Percent-encodes the UTF-8 encoding of `value` so that it can be
/// substituted for a path placeholder as a single segment.
pub fn encode_path_segment(value: &str) -> (encoded: String)
    ensures
        encoded@ == path_segment_spec(value.spec_bytes()),
{
    let bytes = value.as_bytes();
    let mut encoded = String::new();
    let n = bytes.len();
    let mut i: usize = 0;
    while i < n
        invariant
            n == bytes@.len(),
            bytes@ == value.spec_bytes(),
            i <= n,
            encoded@ == path_segment_spec(bytes@.take(i as int)),
        decreases n - i,
    {
        let b = bytes[i];
        if b >= 0x80 || in_path_segment_set_exec(b) {
            push_str(&mut encoded, percent_encode_byte(b));
        } else {
            push_char(&mut encoded, b as char);
        }
        proof {
            assert(bytes@.take(i + 1).drop_last() =~= bytes@.take(i as int));
        }
        i = i + 1;
    }
    proof {
        assert(bytes@.take(n as int) =~= bytes@);
    }
    encoded
}

/// An encoded path parameter never contains a character that would end or
/// split the path segment: no `/`, `?`, `#`, space, `{` or `}`.
pub proof fn lemma_path_segment_is_single_segment(bytes: Seq<u8>)
    ensures
        forall|i: int|
            0 <= i < path_segment_spec(bytes).len() ==> {
                let c = #[trigger] path_segment_spec(bytes)[i];
                c != '/' && c != '?' && c != '#' && c != ' ' && c != '{' && c != '}'
            },
    decreases bytes.len(),
{
    if bytes.len() > 0 {
        lemma_path_segment_is_single_segment(bytes.drop_last());
        let prefix = path_segment_spec(bytes.drop_last());
        let last = segment_byte_spec(bytes.last());
        assert forall|i: int| 0 <= i < last.len() implies {
            let c = #[trigger] last[i];
            c != '/' && c != '?' && c != '#' && c != ' ' && c != '{' && c != '}'
        } by {
            let b = bytes.last();
            if !encodes_byte(b) {
                assert(last[i] == b as char);
            }
        }
        assert forall|i: int| 0 <= i < path_segment_spec(bytes).len() implies {
            let c = #[trigger] path_segment_spec(bytes)[i];
            c != '/' && c != '?' && c != '#' && c != ' ' && c != '{' && c != '}'
        } by {
            if i < prefix.len() {
                assert(path_segment_spec(bytes)[i] == prefix[i]);
            } else {
                assert(path_segment_spec(bytes)[i] == last[i - prefix.len()]);
            }
        }
    }
}

/// Bytes outside the segment set are copied unchanged: for a value made of
/// such ASCII bytes the encoding is the value itself.
pub proof fn lemma_path_segment_plain(bytes: Seq<u8>)
    requires
        forall|i: int| 0 <= i < bytes.len() ==> !encodes_byte(#[trigger] bytes[i]),
    ensures
        path_segment_spec(bytes) == bytes.map_values(|b: u8| b as char),
    decreases bytes.len(),
{
    if bytes.len() > 0 {
        lemma_path_segment_plain(bytes.drop_last());
        assert(bytes.map_values(|b: u8| b as char) =~= bytes.drop_last().map_values(|b: u8| b as char).push(
            bytes.last() as char,
        ));
    } else {
        assert(bytes.map_values(|b: u8| b as char) =~= Seq::<char>::empty());
    }
}

} // verus!
