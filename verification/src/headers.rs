//! HTTP header names and values: validation through the `http` crate, and
//! the list of default headers that a client sends with every request.

use vstd::prelude::*;

use crate::text::owned;
use vstd::string::StringSliceAdditionalSpecFns;

verus! {

#[verifier::external_type_specification]
#[verifier::external_body]
pub struct ExInvalidHeaderValue(http::header::InvalidHeaderValue);

/// Characters allowed in an HTTP header name (RFC 9110 `tchar`).
pub open spec fn is_token_char(c: char) -> bool {
    ||| 'a' <= c <= 'z'
    ||| 'A' <= c <= 'Z'
    ||| '0' <= c <= '9'
    ||| c == '!' || c == '#' || c == '$' || c == '%' || c == '&' || c == '\''
    ||| c == '*' || c == '+' || c == '-' || c == '.' || c == '^' || c == '_'
    ||| c == '`' || c == '|' || c == '~'
}

/// ASCII lower-casing of one character.
pub open spec fn ascii_lower(c: char) -> char {
    if 'A' <= c <= 'Z' {
        ((c as u32) + 32) as char
    } else {
        c
    }
}

/// Whether `http` accepts a string as a header name: one to 65535 token
/// characters.
pub open spec fn header_name_valid(name: Seq<char>) -> bool {
    &&& 1 <= name.len() <= 65535
    &&& forall|i: int| 0 <= i < name.len() ==> is_token_char(#[trigger] name[i])
}

/// The canonical (lower-case) form of a header name.
pub open spec fn header_name_canonical(name: Seq<char>) -> Seq<char> {
    name.map_values(|c: char| ascii_lower(c))
}

/// Whether `http` accepts bytes as a header value: every byte is a tab or a
/// byte from 32 to 255 other than 127.
pub open spec fn header_value_valid(bytes: Seq<u8>) -> bool {
    forall|i: int| 0 <= i < bytes.len() ==> {
        let b = #[trigger] bytes[i];
        b == 9 || (b >= 32 && b != 127)
    }
}

/// Parses a header name with `http::HeaderName::from_bytes` and returns its
/// canonical text (`HeaderName::as_str`).
///
/// `http` accepts one to 65535 token characters and lower-cases them.
#[verifier::external_body]
pub fn parse_header_name(name: &str) -> (r: Option<String>)
    ensures
        r is Some <==> header_name_valid(name@),
        r matches Some(c) ==> c@ == header_name_canonical(name@),
{
    match http::HeaderName::from_bytes(name.as_bytes()) {
        Ok(parsed) => Some(parsed.as_str().to_owned()),
        Err(_) => None,
    }
}

/// Checks a header value with `http::HeaderValue::from_str`, which accepts a
/// value exactly when each of its bytes is a tab or lies in 32..=255 apart
/// from 127.
#[verifier::external_body]
pub fn check_header_value(value: &str) -> (r: Result<(), http::header::InvalidHeaderValue>)
    ensures
        r is Ok <==> header_value_valid(value.spec_bytes()),
{
    match http::HeaderValue::from_str(value) {
        Ok(_) => Ok(()),
        Err(e) => Err(e),
    }
}

/// The text of an invalid header value error (its `Display` in `http`, a
/// fixed message).
#[verifier::external_body]
pub fn invalid_header_value_text(e: &http::header::InvalidHeaderValue) -> (s: String)
    ensures
        s@ == invalid_header_value_message(),
{
    e.to_string()
}

/// The fixed message of `http::header::InvalidHeaderValue`.
pub open spec fn invalid_header_value_message() -> Seq<char> {
    seq!['f', 'a', 'i', 'l', 'e', 'd', ' ', 't', 'o', ' ', 'p', 'a', 'r', 's', 'e', ' ', 'h', 'e', 'a', 'd', 'e', 'r', ' ', 'v', 'a', 'l', 'u', 'e']
}

/// The character sequences of a header list.
pub open spec fn header_list_view(headers: Seq<(String, String)>) -> Seq<(Seq<char>, Seq<char>)> {
    headers.map_values(|h: (String, String)| (h.0@, h.1@))
}

/// Header names in the list are pairwise distinct.
pub open spec fn names_unique(headers: Seq<(Seq<char>, Seq<char>)>) -> bool {
    forall|i: int, j: int|
        0 <= i < headers.len() && 0 <= j < headers.len() && i != j ==> headers[i].0 != headers[j].0
}

/// Whether position `i` holds the first entry named `name`.
pub open spec fn first_named(headers: Seq<(Seq<char>, Seq<char>)>, name: Seq<char>, i: int) -> bool {
    &&& 0 <= i < headers.len()
    &&& headers[i].0 == name
    &&& forall|k: int| 0 <= k < i ==> headers[k].0 != name
}

/// The value of the first entry named `name`, if any.
pub open spec fn header_lookup(headers: Seq<(Seq<char>, Seq<char>)>, name: Seq<char>) -> Option<Seq<char>> {
    if exists|i: int| first_named(headers, name, i) {
        Some(headers[choose|i: int| first_named(headers, name, i)].1)
    } else {
        None
    }
}

/// Inserting a header: the first entry with the name has its value
/// replaced in place; without such an entry, the header is appended.
pub open spec fn header_insert_spec(
    headers: Seq<(Seq<char>, Seq<char>)>,
    name: Seq<char>,
    value: Seq<char>,
) -> Seq<(Seq<char>, Seq<char>)> {
    if exists|i: int| first_named(headers, name, i) {
        headers.update(choose|i: int| first_named(headers, name, i), (name, value))
    } else {
        headers.push((name, value))
    }
}

proof fn lemma_first_named_unique(headers: Seq<(Seq<char>, Seq<char>)>, name: Seq<char>, i: int, j: int)
    requires
        first_named(headers, name, i),
        first_named(headers, name, j),
    ensures
        i == j,
{
}

proof fn lemma_first_named_exists(headers: Seq<(Seq<char>, Seq<char>)>, name: Seq<char>, j: int)
    requires
        0 <= j < headers.len(),
        headers[j].0 == name,
    ensures
        exists|i: int| first_named(headers, name, i),
    decreases j,
{
    if !first_named(headers, name, j) {
        let k = choose|k: int| 0 <= k < j && headers[k].0 == name;
        lemma_first_named_exists(headers, name, k);
    }
}

/// After inserting a header, looking its name up gives the new value, every
/// other name keeps its value, and distinct names stay distinct.
pub proof fn lemma_header_insert(
    headers: Seq<(Seq<char>, Seq<char>)>,
    name: Seq<char>,
    value: Seq<char>,
    other: Seq<char>,
)
    ensures
        header_lookup(header_insert_spec(headers, name, value), name) == Some(value),
        other != name ==> header_lookup(header_insert_spec(headers, name, value), other)
            == header_lookup(headers, other),
        names_unique(headers) ==> names_unique(header_insert_spec(headers, name, value)),
{
    let r = header_insert_spec(headers, name, value);
    if exists|i: int| first_named(headers, name, i) {
        let i = choose|i: int| first_named(headers, name, i);
        assert(first_named(r, name, i));
        let j = choose|j: int| first_named(r, name, j);
        lemma_first_named_unique(r, name, i, j);
        if other != name {
            if exists|k: int| first_named(headers, other, k) {
                let k = choose|k: int| first_named(headers, other, k);
                assert(first_named(r, other, k));
                let k2 = choose|k2: int| first_named(r, other, k2);
                lemma_first_named_unique(r, other, k, k2);
            }
            if exists|k: int| first_named(r, other, k) {
                let k = choose|k: int| first_named(r, other, k);
                assert(k != i);
                assert(headers[k] == r[k]);
                assert forall|l: int| 0 <= l < k implies headers[l].0 != other by {
                    if l != i {
                        assert(headers[l] == r[l]);
                    }
                }
                assert(first_named(headers, other, k));
            }
        }
    } else {
        assert forall|k: int| 0 <= k < headers.len() implies headers[k].0 != name by {
            if headers[k].0 == name {
                lemma_first_named_exists(headers, name, k);
            }
        }
        assert(first_named(r, name, headers.len() as int));
        let j = choose|j: int| first_named(r, name, j);
        lemma_first_named_unique(r, name, headers.len() as int, j);
        if other != name {
            if exists|k: int| first_named(headers, other, k) {
                let k = choose|k: int| first_named(headers, other, k);
                assert(first_named(r, other, k));
                let k2 = choose|k2: int| first_named(r, other, k2);
                lemma_first_named_unique(r, other, k, k2);
            }
            if exists|k: int| first_named(r, other, k) {
                let k = choose|k: int| first_named(r, other, k);
                assert(k < headers.len());
                assert forall|l: int| 0 <= l < k implies headers[l].0 != other by {
                    assert(headers[l] == r[l]);
                }
                assert(first_named(headers, other, k));
            }
        }
    }
}

/// A header list as a client keeps it: every name is a valid header name
/// in canonical (lower-case) form, and no name is listed twice.
pub open spec fn headers_well_formed(headers: Seq<(Seq<char>, Seq<char>)>) -> bool {
    &&& names_unique(headers)
    &&& forall|i: int|
        0 <= i < headers.len() ==> header_name_valid(#[trigger] headers[i].0) && header_name_canonical(
            headers[i].0,
        ) == headers[i].0
}

/// The canonical form of a valid name is valid and canonical.
pub proof fn lemma_canonical_name(name: Seq<char>)
    requires
        header_name_valid(name),
    ensures
        header_name_valid(header_name_canonical(name)),
        header_name_canonical(header_name_canonical(name)) == header_name_canonical(name),
{
    let c = header_name_canonical(name);
    assert forall|i: int| 0 <= i < c.len() implies is_token_char(#[trigger] c[i]) && ascii_lower(c[i]) == c[i] by {
        assert(is_token_char(name[i]));
        if 'A' <= name[i] <= 'Z' {
            assert('a' <= c[i] <= 'z');
        }
    }
    assert(header_name_canonical(c) =~= c);
}

/// Inserting a header under the canonical form of a valid name keeps a
/// well-formed header list well-formed.
pub proof fn lemma_insert_keeps_well_formed(headers: Seq<(Seq<char>, Seq<char>)>, name: Seq<char>, value: Seq<char>)
    requires
        headers_well_formed(headers),
        header_name_valid(name),
    ensures
        headers_well_formed(header_insert_spec(headers, header_name_canonical(name), value)),
{
    let n = header_name_canonical(name);
    lemma_canonical_name(name);
    lemma_header_insert(headers, n, value, n);
    let r = header_insert_spec(headers, n, value);
    assert forall|i: int| 0 <= i < r.len() implies header_name_valid(#[trigger] r[i].0) && header_name_canonical(
        r[i].0,
    ) == r[i].0 by {
        if r[i].0 != n {
            if exists|k: int| first_named(headers, n, k) {
                assert(r[i] == headers[i]);
            } else {
                assert(i < headers.len());
                assert(r[i] == headers[i]);
            }
        }
    }
}

fn str_eq(a: &String, b: &String) -> (r: bool)
    ensures
        r == (a@ == b@),
{
    a.eq(b)
}

/// Inserts or replaces the header `name` (already canonical) in a list of
/// headers.
pub fn insert_header(headers: &mut Vec<(String, String)>, name: String, value: String)
    ensures
        header_list_view(final(headers)@) == header_insert_spec(
            header_list_view(old(headers)@),
            name@,
            value@,
        ),
{
    let ghost old_view = header_list_view(headers@);
    let mut i: usize = 0;
    while i < headers.len()
        invariant
            i <= headers.len(),
            headers@ == old(headers)@,
            old_view == header_list_view(headers@),
            forall|k: int| 0 <= k < i ==> old_view[k].0 != name@,
        decreases headers.len() - i,
    {
        if str_eq(&headers[i].0, &name) {
            proof {
                assert(first_named(old_view, name@, i as int));
                let j = choose|j: int| first_named(old_view, name@, j);
                lemma_first_named_unique(old_view, name@, i as int, j);
            }
            headers.set(i, (name, value));
            proof {
                assert(header_list_view(headers@) =~= old_view.update(i as int, (name@, value@)));
            }
            return;
        }
        i = i + 1;
    }
    proof {
        if exists|j: int| first_named(old_view, name@, j) {
            let j = choose|j: int| first_named(old_view, name@, j);
            assert(old_view[j].0 == name@);
        }
    }
    headers.push((name, value));
    proof {
        assert(header_list_view(headers@) =~= old_view.push((name@, value@)));
    }
}

/// The value of the first header named `name`, if any.
pub fn find_header(headers: &Vec<(String, String)>, name: &str) -> (r: Option<String>)
    ensures
        r is Some <==> header_lookup(header_list_view(headers@), name@) is Some,
        r matches Some(v) ==> header_lookup(header_list_view(headers@), name@) == Some(v@),
{
    let ghost view = header_list_view(headers@);
    let wanted = owned(name);
    let mut i: usize = 0;
    while i < headers.len()
        invariant
            i <= headers.len(),
            view == header_list_view(headers@),
            wanted@ == name@,
            forall|k: int| 0 <= k < i ==> view[k].0 != name@,
        decreases headers.len() - i,
    {
        if str_eq(&headers[i].0, &wanted) {
            proof {
                assert(first_named(view, name@, i as int));
                let j = choose|j: int| first_named(view, name@, j);
                lemma_first_named_unique(view, name@, i as int, j);
            }
            return Some(headers[i].1.clone());
        }
        i = i + 1;
    }
    proof {
        if exists|j: int| first_named(view, name@, j) {
            let j = choose|j: int| first_named(view, name@, j);
            assert(view[j].0 == name@);
        }
    }
    None
}

} // verus!
