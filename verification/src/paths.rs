//! Resource paths: joining resource and method paths, finding `{name}`
//! placeholders, and substituting encoded parameter values for them.

use vstd::prelude::*;

use crate::client::trim_leading_slashes;
use crate::percent::{encode_path_segment, path_segment_spec};
use crate::text::{chars_of, owned, push_char, push_str, string_from_chars};
use vstd::string::StringSliceAdditionalSpecFns;

verus! {

/// The first position at or after `i` that holds `c`, or -1.
pub open spec fn find_from(s: Seq<char>, c: char, i: int) -> int
    decreases s.len() - i,
{
    if i < 0 || i >= s.len() {
        -1
    } else if s[i] == c {
        i
    } else {
        find_from(s, c, i + 1)
    }
}

/// A position found by `find_from` lies at or after the start and holds the
/// character, and no earlier position from the start does.
pub proof fn lemma_find_from(s: Seq<char>, c: char, i: int)
    requires
        0 <= i,
    ensures
        find_from(s, c, i) == -1 || (i <= find_from(s, c, i) < s.len() && s[find_from(s, c, i)] == c),
        find_from(s, c, i) == -1 ==> forall|k: int| i <= k < s.len() ==> s[k] != c,
        find_from(s, c, i) >= 0 ==> forall|k: int| i <= k < find_from(s, c, i) ==> s[k] != c,
    decreases s.len() - i,
{
    if i < s.len() && s[i] != c {
        lemma_find_from(s, c, i + 1);
    }
}

/// The `{name}` placeholders of a path from position `i` on: each `{`
/// opens a placeholder that ends at the next `}`; a `{` without a later
/// `}` ends the scan.
pub open spec fn placeholders_from(s: Seq<char>, i: int) -> Seq<Seq<char>>
    decreases s.len() - i,
{
    if i < 0 || i > s.len() {
        seq![]
    } else {
        let open = find_from(s, '{', i);
        if open < 0 {
            seq![]
        } else {
            let close = find_from(s, '}', open + 1);
            if close < 0 {
                seq![]
            } else {
                proof {
                    lemma_find_from(s, '{', i);
                    lemma_find_from(s, '}', open + 1);
                }
                seq![s.subrange(open + 1, close)] + placeholders_from(s, close + 1)
            }
        }
    }
}

/// Whether the scan for placeholders from `i` meets a `{` that no `}`
/// closes.
pub open spec fn unclosed_from(s: Seq<char>, i: int) -> bool
    decreases s.len() - i,
{
    if i < 0 || i > s.len() {
        false
    } else {
        let open = find_from(s, '{', i);
        if open < 0 {
            false
        } else {
            let close = find_from(s, '}', open + 1);
            if close < 0 {
                true
            } else {
                proof {
                    lemma_find_from(s, '{', i);
                    lemma_find_from(s, '}', open + 1);
                }
                unclosed_from(s, close + 1)
            }
        }
    }
}

/// The placeholders of a path, in order.
pub open spec fn placeholders_spec(path: Seq<char>) -> Seq<Seq<char>> {
    placeholders_from(path, 0)
}

fn find_char(cs: &Vec<char>, c: char, start: usize) -> (r: Option<usize>)
    requires
        start <= cs.len(),
    ensures
        r is None <==> find_from(cs@, c, start as int) == -1,
        r matches Some(k) ==> k as int == find_from(cs@, c, start as int),
{
    let mut k = start;
    while k < cs.len()
        invariant
            start <= k <= cs.len(),
            find_from(cs@, c, start as int) == find_from(cs@, c, k as int),
        decreases cs.len() - k,
    {
        if cs[k] == c {
            return Some(k);
        }
        k = k + 1;
    }
    None
}

fn substring(cs: &Vec<char>, from: usize, to: usize) -> (r: String)
    requires
        from <= to <= cs.len(),
    ensures
        r@ == cs@.subrange(from as int, to as int),
{
    let mut out = String::new();
    let mut k = from;
    while k < to
        invariant
            from <= k <= to,
            to <= cs.len(),
            out@ == cs@.subrange(from as int, k as int),
        decreases to - k,
    {
        push_char(&mut out, cs[k]);
        k = k + 1;
        proof {
            assert(out@ =~= cs@.subrange(from as int, k as int));
        }
    }
    out
}

/// The character sequences of a list of strings.
pub open spec fn names_view(s: Seq<String>) -> Seq<Seq<char>> {
    s.map_values(|v: String| v@)
}

/// Lists the `{name}` placeholders of a path, in order.
pub fn path_placeholders(path: &str) -> (r: Vec<String>)
    ensures
        names_view(r@) == placeholders_spec(path@),
{
    let cs = chars_of(path);
    let mut found: Vec<String> = Vec::new();
    let mut i: usize = 0;
    loop
        invariant
            cs@ == path@,
            i <= cs.len(),
            names_view(found@) + placeholders_from(cs@, i as int) == placeholders_spec(path@),
        decreases cs.len() - i,
    {
        let open = match find_char(&cs, '{', i) {
            Some(k) => k,
            None => {
                proof {
                    assert(names_view(found@) + Seq::<Seq<char>>::empty() =~= names_view(found@));
                }
                return found;
            },
        };
        proof {
            lemma_find_from(cs@, '{', i as int);
        }
        let close = match find_char(&cs, '}', open + 1) {
            Some(k) => k,
            None => {
                proof {
                    assert(names_view(found@) + Seq::<Seq<char>>::empty() =~= names_view(found@));
                }
                return found;
            },
        };
        proof {
            lemma_find_from(cs@, '{', i as int);
            lemma_find_from(cs@, '}', open + 1);
        }
        let name = substring(&cs, open + 1, close);
        let ghost before = found@;
        found.push(name);
        proof {
            assert(names_view(found@) =~= names_view(before).push(name@));
            assert(names_view(found@) + placeholders_from(cs@, close + 1) =~= names_view(before) + (
            seq![cs@.subrange(open + 1, close as int)] + placeholders_from(cs@, close + 1)));
        }
        i = close + 1;
    }
}

/// Whether a path has a `{` that no later `}` closes.
pub fn has_unclosed_placeholder(path: &str) -> (r: bool)
    ensures
        r == unclosed_from(path@, 0),
{
    let cs = chars_of(path);
    let mut i: usize = 0;
    loop
        invariant
            cs@ == path@,
            i <= cs.len(),
            unclosed_from(cs@, 0) == unclosed_from(cs@, i as int),
        decreases cs.len() - i,
    {
        let open = match find_char(&cs, '{', i) {
            Some(k) => k,
            None => {
                return false;
            },
        };
        proof {
            lemma_find_from(cs@, '{', i as int);
        }
        let close = match find_char(&cs, '}', open + 1) {
            Some(k) => k,
            None => {
                return true;
            },
        };
        proof {
            lemma_find_from(cs@, '{', i as int);
            lemma_find_from(cs@, '}', open + 1);
        }
        i = close + 1;
    }
}

/// A path without its trailing slashes.
pub open spec fn trim_trailing_slashes(path: Seq<char>) -> Seq<char>
    decreases path.len(),
{
    if path.len() > 0 && path.last() == '/' {
        trim_trailing_slashes(path.drop_last())
    } else {
        path
    }
}

/// Joins a resource path and a method path with exactly one `/` between
/// them; the result always starts with `/` when the resource path is empty.
pub open spec fn join_paths_spec(base: Seq<char>, method: Seq<char>) -> Seq<char> {
    let b = trim_trailing_slashes(base);
    let m = trim_leading_slashes(method);
    if b.len() == 0 && m.len() == 0 {
        "/"@
    } else if b.len() == 0 {
        "/"@ + m
    } else if m.len() == 0 {
        b
    } else {
        b + "/"@ + m
    }
}

fn trim_end_slashes(path: &str) -> (r: String)
    ensures
        r@ == trim_trailing_slashes(path@),
{
    let cs = chars_of(path);
    let mut end: usize = cs.len();
    proof {
        assert(cs@.take(end as int) =~= cs@);
    }
    while end > 0 && cs[end - 1] == '/'
        invariant
            cs@ == path@,
            end <= cs.len(),
            trim_trailing_slashes(path@) == trim_trailing_slashes(cs@.take(end as int)),
        decreases end,
    {
        proof {
            assert(cs@.take(end as int).drop_last() =~= cs@.take(end - 1));
        }
        end = end - 1;
    }
    substring(&cs, 0, end)
}

/// Joins a resource path and a method path.
pub fn join_paths(base: &str, method: &str) -> (r: String)
    ensures
        r@ == join_paths_spec(base@, method@),
{
    let b = trim_end_slashes(base);
    let m = crate::client::trim_start_slashes(method);
    let b_empty = b.as_str().is_empty();
    let m_empty = m.as_str().is_empty();
    if b_empty && m_empty {
        owned("/")
    } else if b_empty {
        let mut s = owned("/");
        push_str(&mut s, m.as_str());
        s
    } else if m_empty {
        b
    } else {
        let mut s = b;
        push_str(&mut s, "/");
        push_str(&mut s, m.as_str());
        s
    }
}

/// Replacing every non-overlapping occurrence of `pattern`, from left to
/// right, by `replacement`.
pub open spec fn replace_spec(s: Seq<char>, pattern: Seq<char>, replacement: Seq<char>) -> Seq<char>
    recommends
        pattern.len() > 0,
    decreases s.len(),
{
    if pattern.len() == 0 || s.len() < pattern.len() {
        s
    } else if s.take(pattern.len() as int) == pattern {
        replacement + replace_spec(s.skip(pattern.len() as int), pattern, replacement)
    } else {
        seq![s[0]] + replace_spec(s.drop_first(), pattern, replacement)
    }
}

/// Replaces every non-overlapping occurrence of a non-empty pattern, left
/// to right.
pub fn replace_all(s: &str, pattern: &str, replacement: &str) -> (r: String)
    requires
        pattern@.len() > 0,
    ensures
        r@ == replace_spec(s@, pattern@, replacement@),
{
    let cs = chars_of(s);
    let ps = chars_of(pattern);
    let mut out = String::new();
    let mut i: usize = 0;
    proof {
        assert(cs@.skip(0) =~= cs@);
    }
    while i < cs.len()
        invariant
            cs@ == s@,
            ps@ == pattern@,
            ps.len() > 0,
            i <= cs.len(),
            out@ + replace_spec(cs@.skip(i as int), ps@, replacement@) == replace_spec(cs@, ps@, replacement@),
        decreases cs.len() - i,
    {
        let ghost rest = cs@.skip(i as int);
        let mut matches = ps.len() <= cs.len() - i;
        let mut j: usize = 0;
        if matches {
            while j < ps.len()
                invariant
                    cs@ == s@,
                    ps@ == pattern@,
                    i + ps.len() <= cs.len(),
                    j <= ps.len(),
                    matches == (forall|k: int| 0 <= k < j ==> cs@[i + k] == ps@[k]),
                decreases ps.len() - j,
            {
                if cs[i + j] != ps[j] {
                    matches = false;
                }
                j = j + 1;
            }
        }
        proof {
            if i + ps.len() <= cs.len() {
                if matches {
                    assert(rest.take(ps.len() as int) =~= ps@);
                } else {
                    let k = choose|k: int| 0 <= k < ps.len() && cs@[i + k] != ps@[k];
                    assert(rest.take(ps.len() as int)[k] == cs@[i + k]);
                }
            }
        }
        if matches {
            push_str(&mut out, replacement);
            proof {
                assert(rest.skip(ps.len() as int) =~= cs@.skip(i + ps.len()));
            }
            i = i + ps.len();
        } else {
            let ghost before = out@;
            push_char(&mut out, cs[i]);
            proof {
                assert(rest.drop_first() =~= cs@.skip(i + 1));
                assert(rest[0] == cs@[i as int]);
                assert(out@ =~= before + seq![rest[0]]);
            }
            i = i + 1;
        }
    }
    proof {
        assert(cs@.skip(i as int) =~= Seq::<char>::empty());
        assert(out@ + Seq::<char>::empty() =~= out@);
    }
    out
}

/// The placeholder text `{name}`.
pub open spec fn placeholder_text(name: Seq<char>) -> Seq<char> {
    "{"@ + name + "}"@
}

/// The path after substituting each binding, in order: every `{name}` of a
/// binding becomes the binding's value percent-encoded as one path segment.
pub open spec fn expand_path_spec(template: Seq<char>, bindings: Seq<(Seq<char>, Seq<char>)>) -> Seq<char>
    decreases bindings.len(),
{
    if bindings.len() == 0 {
        template
    } else {
        replace_spec(
            expand_path_spec(template, bindings.drop_last()),
            placeholder_text(bindings.last().0),
            path_segment_spec(vstd::utf8::encode_utf8(bindings.last().1)),
        )
    }
}

/// Substitutes path parameter values for their placeholders, in the order
/// of the bindings, encoding each value as a single path segment.
pub fn expand_path(template: &str, bindings: &Vec<(String, String)>) -> (r: String)
    ensures
        r@ == expand_path_spec(template@, crate::url_model::pairs_view(bindings@)),
{
    let ghost bs = crate::url_model::pairs_view(bindings@);
    let mut path = owned(template);
    let mut i: usize = 0;
    proof {
        assert(bs.take(0) =~= Seq::<(Seq<char>, Seq<char>)>::empty());
    }
    while i < bindings.len()
        invariant
            i <= bindings.len(),
            bs == crate::url_model::pairs_view(bindings@),
            path@ == expand_path_spec(template@, bs.take(i as int)),
        decreases bindings.len() - i,
    {
        let mut pattern = owned("{");
        push_str(&mut pattern, bindings[i].0.as_str());
        push_str(&mut pattern, "}");
        let encoded = encode_path_segment(bindings[i].1.as_str());
        proof {
            reveal_strlit("{");
            assert(pattern@.len() > 0);
            assert(bs.take(i + 1).drop_last() =~= bs.take(i as int));
        }
        path = replace_all(path.as_str(), pattern.as_str(), encoded.as_str());
        i = i + 1;
    }
    proof {
        assert(bs.take(bindings.len() as int) =~= bs);
    }
    path
}

} // verus!
