//! Standard (RFC 4648) base64 encoding with padding, used for HTTP Basic
//! authentication credentials.

use vstd::prelude::*;

use crate::text::push_char;

verus! {

/// The character of the standard base64 alphabet for a 6-bit value.
pub open spec fn b64_symbol(v: int) -> char {
    if v < 26 {
        (65 + v) as char
    } else if v < 52 {
        (97 + (v - 26)) as char
    } else if v < 62 {
        (48 + (v - 52)) as char
    } else if v == 62 {
        '+'
    } else {
        '/'
    }
}

/// Whether a character may occur in padded standard base64 output.
pub open spec fn is_b64_output_char(c: char) -> bool {
    ||| 'A' <= c <= 'Z'
    ||| 'a' <= c <= 'z'
    ||| '0' <= c <= '9'
    ||| c == '+'
    ||| c == '/'
    ||| c == '='
}

/// The four output characters for a group of one to three input bytes;
/// missing bytes count as zero and their output positions are padded with `=`.
pub open spec fn b64_group(g: Seq<u8>) -> Seq<char>
    recommends
        1 <= g.len() <= 3,
{
    let a = g[0] as int;
    let b = if g.len() > 1 { g[1] as int } else { 0 };
    let c = if g.len() > 2 { g[2] as int } else { 0 };
    seq![
        b64_symbol(a / 4),
        b64_symbol((a % 4) * 16 + b / 16),
        if g.len() > 1 { b64_symbol((b % 16) * 4 + c / 64) } else { '=' },
        if g.len() > 2 { b64_symbol(c % 64) } else { '=' },
    ]
}

/// Standard base64 encoding of a byte sequence: each group of three bytes
/// becomes four characters, and a shorter final group is padded.
pub open spec fn base64_spec(s: Seq<u8>) -> Seq<char>
    decreases s.len(),
{
    if s.len() == 0 {
        seq![]
    } else if s.len() <= 3 {
        b64_group(s)
    } else {
        b64_group(s.take(3)) + base64_spec(s.skip(3))
    }
}

/// Encoding a prefix made of whole groups and then the rest is the same as
/// encoding the whole sequence.
proof fn lemma_base64_split(s: Seq<u8>, k: int)
    requires
        0 <= k,
        3 * k <= s.len(),
    ensures
        base64_spec(s) == base64_spec(s.take(3 * k)) + base64_spec(s.skip(3 * k)),
    decreases k,
{
    if k == 0 {
        assert(s.take(0) =~= Seq::<u8>::empty());
        assert(s.skip(0) =~= s);
    } else {
        let t = s.skip(3);
        lemma_base64_split(t, k - 1);
        assert(t.take(3 * (k - 1)) =~= s.take(3 * k).skip(3));
        assert(t.skip(3 * (k - 1)) =~= s.skip(3 * k));
        assert(s.take(3 * k).take(3) =~= s.take(3));
        if s.len() == 3 {
            assert(s.take(3 * k) =~= s);
            assert(s.skip(3 * k) =~= Seq::<u8>::empty());
        } else {
            if k == 1 {
                assert(s.take(3) =~= s.take(3 * k));
                assert(t.take(0) =~= Seq::<u8>::empty());
            }
        }
    }
}

/// The encoding is four characters for every started group of three bytes.
pub proof fn lemma_base64_length(s: Seq<u8>)
    ensures
        base64_spec(s).len() == 4 * ((s.len() + 2) / 3),
    decreases s.len(),
{
    if s.len() > 3 {
        lemma_base64_length(s.skip(3));
    }
}

/// Every character of the encoding belongs to the base64 alphabet or is the
/// padding character `=`, which only ever appears in the last group.
pub proof fn lemma_base64_alphabet(s: Seq<u8>)
    ensures
        forall|i: int| 0 <= i < base64_spec(s).len() ==> is_b64_output_char(#[trigger] base64_spec(s)[i]),
        forall|i: int| 0 <= i < base64_spec(s).len() && base64_spec(s)[i] == '=' ==> i >= base64_spec(s).len() - 2,
    decreases s.len(),
{
    lemma_base64_length(s);
    if s.len() > 3 {
        lemma_base64_alphabet(s.skip(3));
        lemma_base64_length(s.skip(3));
        lemma_group_alphabet(s.take(3));
    } else if s.len() > 0 {
        lemma_group_alphabet(s);
    }
}

proof fn lemma_symbol_alphabet(v: int)
    requires
        0 <= v < 64,
    ensures
        is_b64_output_char(b64_symbol(v)),
        b64_symbol(v) != '=',
{
}

proof fn lemma_group_alphabet(g: Seq<u8>)
    requires
        1 <= g.len() <= 3,
    ensures
        forall|i: int| 0 <= i < 4 ==> is_b64_output_char(#[trigger] b64_group(g)[i]),
        g.len() == 3 ==> forall|i: int| 0 <= i < 4 ==> #[trigger] b64_group(g)[i] != '=',
        b64_group(g)[0] != '=' && b64_group(g)[1] != '=',
        g.len() >= 2 ==> b64_group(g)[2] != '=',
{
    let a = g[0] as int;
    let b = if g.len() > 1 { g[1] as int } else { 0 };
    let c = if g.len() > 2 { g[2] as int } else { 0 };
    lemma_symbol_alphabet(a / 4);
    lemma_symbol_alphabet((a % 4) * 16 + b / 16);
    lemma_symbol_alphabet((b % 16) * 4 + c / 64);
    lemma_symbol_alphabet(c % 64);
}

/// The 6-bit value of a base64 alphabet character.
pub open spec fn b64_value(c: char) -> int {
    if 'A' <= c <= 'Z' {
        c as int - 65
    } else if 'a' <= c <= 'z' {
        c as int - 97 + 26
    } else if '0' <= c <= '9' {
        c as int - 48 + 52
    } else if c == '+' {
        62
    } else {
        63
    }
}

/// Standard base64 decoding of one group of four characters: three bytes,
/// or fewer when the group ends with `=` padding.
pub open spec fn b64_decode_group(t: Seq<char>) -> Seq<u8> {
    let v0 = b64_value(t[0]);
    let v1 = b64_value(t[1]);
    let v2 = b64_value(t[2]);
    let v3 = b64_value(t[3]);
    let x0 = (v0 * 4 + v1 / 16) as u8;
    let x1 = ((v1 % 16) * 16 + v2 / 4) as u8;
    let x2 = ((v2 % 4) * 64 + v3) as u8;
    if t[2] == '=' {
        seq![x0]
    } else if t[3] == '=' {
        seq![x0, x1]
    } else {
        seq![x0, x1, x2]
    }
}

/// Standard base64 decoding, group of four characters by group.
pub open spec fn base64_decode_spec(t: Seq<char>) -> Seq<u8>
    decreases t.len(),
{
    if t.len() < 4 {
        seq![]
    } else {
        b64_decode_group(t.take(4)) + base64_decode_spec(t.skip(4))
    }
}

proof fn lemma_symbol_value(v: int)
    requires
        0 <= v < 64,
    ensures
        b64_value(b64_symbol(v)) == v,
{
}

proof fn lemma_group_decodes(g: Seq<u8>)
    requires
        1 <= g.len() <= 3,
    ensures
        b64_decode_group(b64_group(g)) == g,
{
    let a = g[0] as int;
    let b = if g.len() > 1 { g[1] as int } else { 0 };
    let c = if g.len() > 2 { g[2] as int } else { 0 };
    let v0 = a / 4;
    let v1 = (a % 4) * 16 + b / 16;
    let v2 = (b % 16) * 4 + c / 64;
    let v3 = c % 64;
    assert(0 <= v0 < 64 && 0 <= v1 < 64 && 0 <= v2 < 64 && 0 <= v3 < 64) by (nonlinear_arith)
        requires
            0 <= a < 256,
            0 <= b < 256,
            0 <= c < 256,
            v0 == a / 4,
            v1 == (a % 4) * 16 + b / 16,
            v2 == (b % 16) * 4 + c / 64,
            v3 == c % 64,
    ;
    lemma_symbol_value(v0);
    lemma_symbol_value(v1);
    lemma_symbol_value(v2);
    lemma_symbol_value(v3);
    lemma_group_alphabet(g);
    assert(v0 * 4 + v1 / 16 == a && (v1 % 16) * 16 + v2 / 4 == b && (v2 % 4) * 64 + v3 == c) by (nonlinear_arith)
        requires
            0 <= a < 256,
            0 <= b < 256,
            0 <= c < 256,
            v0 == a / 4,
            v1 == (a % 4) * 16 + b / 16,
            v2 == (b % 16) * 4 + c / 64,
            v3 == c % 64,
    ;
    let t = b64_group(g);
    if g.len() > 1 {
        assert(t[1] == b64_symbol(v1));
        assert(t[2] == b64_symbol(v2));
    }
    if g.len() > 2 {
        assert(t[3] == b64_symbol(v3));
    }
    assert(b64_decode_group(t) =~= g);
}

/// Decoding the encoding gives the input back, so distinct inputs have
/// distinct encodings.
pub proof fn lemma_base64_decodes(s: Seq<u8>)
    ensures
        base64_decode_spec(base64_spec(s)) == s,
    decreases s.len(),
{
    let e = base64_spec(s);
    if s.len() == 0 {
    } else if s.len() <= 3 {
        lemma_group_decodes(s);
        assert(e.len() == 4);
        assert(e.take(4) =~= e);
        assert(base64_decode_spec(e.skip(4)) =~= Seq::<u8>::empty());
        assert(base64_decode_spec(e) =~= b64_decode_group(e) + Seq::<u8>::empty());
    } else {
        lemma_group_decodes(s.take(3));
        lemma_base64_decodes(s.skip(3));
        assert(e.take(4) =~= b64_group(s.take(3)));
        assert(e.skip(4) =~= base64_spec(s.skip(3)));
        assert(s.take(3) + s.skip(3) =~= s);
    }
}

/// Distinct byte sequences have distinct encodings.
pub proof fn lemma_base64_injective(s1: Seq<u8>, s2: Seq<u8>)
    ensures
        base64_spec(s1) == base64_spec(s2) ==> s1 == s2,
{
    lemma_base64_decodes(s1);
    lemma_base64_decodes(s2);
}

/// The encoding ends with exactly `(3 - n % 3) % 3` padding characters for
/// `n` input bytes, and has no `=` anywhere else.
pub proof fn lemma_base64_padding(s: Seq<u8>)
    ensures
        forall|i: int|
            0 <= i < base64_spec(s).len() ==> (#[trigger] base64_spec(s)[i] == '=' <==> i >= base64_spec(s).len()
                - (3 - s.len() % 3) % 3),
    decreases s.len(),
{
    lemma_base64_length(s);
    if s.len() > 3 {
        lemma_base64_padding(s.skip(3));
        lemma_base64_length(s.skip(3));
        lemma_group_alphabet(s.take(3));
        let e = base64_spec(s);
        assert forall|i: int| 0 <= i < e.len() implies (#[trigger] e[i] == '=' <==> i >= e.len() - (3 - s.len()
            % 3) % 3) by {
            assert(s.skip(3).len() % 3 == s.len() % 3);
            if i >= 4 {
                assert(e[i] == base64_spec(s.skip(3))[i - 4]);
            } else {
                assert(e[i] == b64_group(s.take(3))[i]);
            }
        }
    } else if s.len() > 0 {
        lemma_group_alphabet(s);
    }
}

fn b64_symbol_exec(v: u8) -> (c: char)
    requires
        v < 64,
    ensures
        c == b64_symbol(v as int),
{
    if v < 26 {
        (65u8 + v) as char
    } else if v < 52 {
        (97u8 + (v - 26)) as char
    } else if v < 62 {
        (48u8 + (v - 52)) as char
    } else if v == 62 {
        '+'
    } else {
        '/'
    }
}

/// Encodes bytes as standard, padded base64.
pub fn base64_standard(bytes: &[u8]) -> (encoded: String)
    ensures
        encoded@ == base64_spec(bytes@),
{
    let mut encoded = String::new();
    let n = bytes.len();
    let mut i: usize = 0;
    while i < n
        invariant
            n == bytes@.len(),
            i <= n,
            i % 3 == 0 || i == n,
            encoded@ == base64_spec(bytes@.take(i as int)),
        decreases n - i,
    {
        let first = bytes[i];
        let has_second = i + 1 < n;
        let has_third = i + 2 < n;
        let second: u8 = if has_second { bytes[i + 1] } else { 0 };
        let third: u8 = if has_third { bytes[i + 2] } else { 0 };
        let ghost old_encoded = encoded@;
        let ghost next: int = if i + 3 <= n { i + 3 } else { n as int };
        let ghost g = bytes@.subrange(i as int, next);

        let v0: u8 = first >> 2;
        let v1: u8 = ((first & 3u8) << 4u8) | (second >> 4u8);
        let v2: u8 = ((second & 15u8) << 2u8) | (third >> 6u8);
        let v3: u8 = third & 63u8;
        proof {
            assert(v0 == first / 4) by (bit_vector)
                requires v0 == first >> 2;
            assert(v1 == (first % 4) * 16 + second / 16) by (bit_vector)
                requires v1 == ((first & 3u8) << 4u8) | (second >> 4u8);
            assert(v2 == (second % 16) * 4 + third / 64) by (bit_vector)
                requires v2 == ((second & 15u8) << 2u8) | (third >> 6u8);
            assert(v3 == third % 64) by (bit_vector)
                requires v3 == third & 63u8;
        }
        push_char(&mut encoded, b64_symbol_exec(v0));
        push_char(&mut encoded, b64_symbol_exec(v1));
        if has_second {
            push_char(&mut encoded, b64_symbol_exec(v2));
        } else {
            push_char(&mut encoded, '=');
        }
        if has_third {
            push_char(&mut encoded, b64_symbol_exec(v3));
        } else {
            push_char(&mut encoded, '=');
        }
        proof {
            assert(encoded@ =~= old_encoded + b64_group(g));
            let taken = bytes@.take(next);
            lemma_base64_split(taken, i as int / 3);
            assert(taken.take(i as int) =~= bytes@.take(i as int));
            assert(taken.skip(i as int) =~= g);
        }
        i = if i + 3 <= n { i + 3 } else { n };
        proof {
            if i % 3 != 0 {
                // the last, partial group ends the input
            }
        }
    }
    proof {
        assert(bytes@.take(n as int) =~= bytes@);
    }
    encoded
}

} // verus!
