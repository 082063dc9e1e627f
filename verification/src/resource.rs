//! Client definitions: how a REST resource description (resource
//! arguments, methods with their attributes, parameters and return types) is
//! checked and turned into a request plan for every method.

use vstd::prelude::*;

use crate::headers::{header_name_valid, parse_header_name};
use crate::paths::{
    has_unclosed_placeholder, join_paths, join_paths_spec, names_view, path_placeholders,
    placeholders_spec, unclosed_from,
};
use crate::text::{chars_of, owned, push_str, text_eq};

verus! {

/// Media type names that a client understands.
pub open spec fn application_json() -> Seq<char> {
    "application/json"@
}

/// Whether a character is Unicode white space (`char::is_whitespace`).
pub open spec fn is_white_space(c: char) -> bool {
    ||| '\u{9}' <= c <= '\u{d}'
    ||| c == ' '
    ||| c == '\u{85}'
    ||| c == '\u{a0}'
    ||| c == '\u{1680}'
    ||| '\u{2000}' <= c <= '\u{200a}'
    ||| c == '\u{2028}'
    ||| c == '\u{2029}'
    ||| c == '\u{202f}'
    ||| c == '\u{205f}'
    ||| c == '\u{3000}'
}

fn is_white_space_exec(c: char) -> (r: bool)
    ensures
        r == is_white_space(c),
{
    ('\u{9}' <= c && c <= '\u{d}') || c == ' ' || c == '\u{85}' || c == '\u{a0}' || c == '\u{1680}' || (
    '\u{2000}' <= c && c <= '\u{200a}') || c == '\u{2028}' || c == '\u{2029}' || c == '\u{202f}' || c
        == '\u{205f}' || c == '\u{3000}'
}

/// The position of the first `/`, or -1.
pub open spec fn first_slash(s: Seq<char>) -> int {
    crate::paths::find_from(s, '/', 0)
}

/// Why a media type is rejected, if it is: it must be `type/subtype` with
/// both parts non-empty, no white space anywhere and no `;` in the type.
pub open spec fn media_type_failure(value: Seq<char>) -> Option<Seq<char>> {
    let slash = first_slash(value);
    if slash < 0 {
        Some("media types must use `type/subtype` syntax"@)
    } else if slash == 0 || slash == value.len() - 1 || (exists|i: int|
        0 <= i < value.len() && is_white_space(#[trigger] value[i])) || (exists|i: int|
        0 <= i < slash && #[trigger] value[i] == ';') {
        Some("media types must be non-empty `type/subtype` values without whitespace"@)
    } else {
        None
    }
}

/// Checks that a media type is a non-empty `type/subtype` value without
/// white space.
pub fn validate_media_type(value: &str) -> (r: Result<String, String>)
    ensures
        media_type_failure(value@) is None ==> (r matches Ok(v) && v@ == value@),
        media_type_failure(value@) matches Some(m) ==> (r matches Err(e) && e@ == m),
{
    let cs = chars_of(value);
    let mut slash: usize = 0;
    while slash < cs.len() && cs[slash] != '/'
        invariant
            cs@ == value@,
            slash <= cs.len(),
            forall|k: int| 0 <= k < slash ==> cs@[k] != '/',
            crate::paths::find_from(cs@, '/', 0) == crate::paths::find_from(cs@, '/', slash as int),
        decreases cs.len() - slash,
    {
        slash = slash + 1;
    }
    if slash == cs.len() {
        return Err(owned("media types must use `type/subtype` syntax"));
    }
    let mut bad = slash == 0 || slash == cs.len() - 1;
    let mut i: usize = 0;
    while i < cs.len()
        invariant
            cs@ == value@,
            i <= cs.len(),
            0 < cs.len(),
            slash < cs.len(),
            bad == (slash == 0 || slash == cs.len() - 1 || (exists|k: int|
                0 <= k < i && is_white_space(#[trigger] cs@[k])) || (exists|k: int|
                0 <= k < i && k < slash && #[trigger] cs@[k] == ';')),
        decreases cs.len() - i,
    {
        if is_white_space_exec(cs[i]) || (i < slash && cs[i] == ';') {
            bad = true;
        }
        i = i + 1;
    }
    if bad {
        Err(owned("media types must be non-empty `type/subtype` values without whitespace"))
    } else {
        Ok(owned(value))
    }
}

/// Whether `x` occurs in `s`.
pub open spec fn occurs(s: Seq<Seq<char>>, x: Seq<char>) -> bool {
    exists|i: int| 0 <= i < s.len() && s[i] == x
}

/// The first element of `s` that does not occur in `others`.
pub open spec fn first_missing(s: Seq<Seq<char>>, others: Seq<Seq<char>>) -> Option<Seq<char>>
    decreases s.len(),
{
    if s.len() == 0 {
        None
    } else if !occurs(others, s[0]) {
        Some(s[0])
    } else {
        first_missing(s.drop_first(), others)
    }
}

/// Why the path parameters do not fit the placeholders, if they do not:
/// every placeholder needs a parameter, and every parameter a placeholder.
pub open spec fn path_params_failure(placeholders: Seq<Seq<char>>, names: Seq<Seq<char>>) -> Option<
    Seq<char>,
> {
    match first_missing(placeholders, names) {
        Some(p) => Some("missing #[path(\""@ + p + "\")] argument for path placeholder"@),
        None => match first_missing(names, placeholders) {
            Some(n) => Some("#[path(\""@ + n + "\")] does not match a path placeholder"@),
            None => None,
        },
    }
}

fn contains_name(s: &Vec<String>, x: &String) -> (r: bool)
    ensures
        r == occurs(names_view(s@), x@),
{
    let mut i: usize = 0;
    while i < s.len()
        invariant
            i <= s.len(),
            forall|k: int| 0 <= k < i ==> names_view(s@)[k] != x@,
        decreases s.len() - i,
    {
        if text_eq(s[i].as_str(), x.as_str()) {
            proof {
                assert(names_view(s@)[i as int] == x@);
            }
            return true;
        }
        i = i + 1;
    }
    false
}

fn find_missing(s: &Vec<String>, others: &Vec<String>) -> (r: Option<String>)
    ensures
        r is None <==> first_missing(names_view(s@), names_view(others@)) is None,
        r matches Some(m) ==> first_missing(names_view(s@), names_view(others@)) == Some(m@),
{
    let ghost sv = names_view(s@);
    let ghost ov = names_view(others@);
    let mut i: usize = 0;
    proof {
        assert(sv.skip(0) =~= sv);
    }
    while i < s.len()
        invariant
            i <= s.len(),
            sv == names_view(s@),
            ov == names_view(others@),
            first_missing(sv, ov) == first_missing(sv.skip(i as int), ov),
        decreases s.len() - i,
    {
        proof {
            assert(sv.skip(i as int).drop_first() =~= sv.skip(i + 1));
            assert(sv.skip(i as int)[0] == s@[i as int]@);
        }
        if !contains_name(others, &s[i]) {
            return Some(s[i].clone());
        }
        i = i + 1;
    }
    None
}

/// Checks that the path parameters name exactly the placeholders of the
/// full path.
pub fn validate_path_params(full_path: &str, path_param_names: &Vec<String>) -> (r: Result<(), String>)
    ensures
        path_params_failure(placeholders_spec(full_path@), names_view(path_param_names@)) is None
            ==> r is Ok,
        path_params_failure(placeholders_spec(full_path@), names_view(path_param_names@)) matches Some(m)
            ==> (r matches Err(e) && e@ == m),
{
    let placeholders = path_placeholders(full_path);
    match find_missing(&placeholders, path_param_names) {
        Some(p) => {
            let mut m = owned("missing #[path(\"");
            push_str(&mut m, p.as_str());
            push_str(&mut m, "\")] argument for path placeholder");
            return Err(m);
        },
        None => {},
    }
    match find_missing(path_param_names, &placeholders) {
        Some(n) => {
            let mut m = owned("#[path(\"");
            push_str(&mut m, n.as_str());
            push_str(&mut m, "\")] does not match a path placeholder");
            Err(m)
        },
        None => Ok(()),
    }
}

/// Whether some value occurs twice.
pub open spec fn has_duplicates(s: Seq<Seq<char>>) -> bool {
    exists|i: int, j: int| 0 <= i < j < s.len() && s[i] == s[j]
}

fn find_duplicates(s: &Vec<String>) -> (r: bool)
    ensures
        r == has_duplicates(names_view(s@)),
{
    let ghost v = names_view(s@);
    let mut j: usize = 0;
    while j < s.len()
        invariant
            j <= s.len(),
            v == names_view(s@),
            forall|a: int, b: int| 0 <= a < b < j ==> v[a] != v[b],
        decreases s.len() - j,
    {
        let mut i: usize = 0;
        while i < j
            invariant
                i <= j < s.len(),
                v == names_view(s@),
                forall|a: int| 0 <= a < i ==> v[a] != v[j as int],
            decreases j - i,
        {
            if text_eq(s[i].as_str(), s[j].as_str()) {
                proof {
                    assert(v[i as int] == v[j as int]);
                }
                return true;
            }
            i = i + 1;
        }
        j = j + 1;
    }
    false
}

/// Resource-level settings of a client definition.
#[derive(Debug, Clone)]
pub struct ResourceConfig {
    /// Path prefix of every method.
    pub path: String,
    /// Default request body media type.
    pub consumes: String,
    /// Default response media type.
    pub produces: String,
    /// Configuration key, when one was given.
    pub config_key: Option<String>,
}

/// What resource arguments (`key = "value"` pairs) give: defaults of an
/// empty path and JSON in both directions, each key at most once.
pub open spec fn resource_args_spec(args: Seq<(Seq<char>, Seq<char>)>) -> Result<
    (Seq<char>, Seq<char>, Seq<char>, Option<Seq<char>>),
    Seq<char>,
>
    decreases args.len(),
{
    if args.len() == 0 {
        Ok((Seq::empty(), application_json(), application_json(), None))
    } else {
        match resource_args_spec(args.drop_last()) {
            Err(e) => Err(e),
            Ok((path, consumes, produces, config_key)) => {
                let (key, value) = args.last();
                if exists|i: int| 0 <= i < args.len() - 1 && args[i].0 == key {
                    Err("duplicate `"@ + key + "` argument"@)
                } else if key == "path"@ {
                    Ok((value, consumes, produces, config_key))
                } else if key == "consumes"@ {
                    match media_type_failure(value) {
                        Some(m) => Err(m),
                        None => Ok((path, value, produces, config_key)),
                    }
                } else if key == "produces"@ {
                    match media_type_failure(value) {
                        Some(m) => Err(m),
                        None => Ok((path, consumes, value, config_key)),
                    }
                } else if key == "config_key"@ {
                    if value.len() == 0 {
                        Err("`config_key` must not be empty"@)
                    } else {
                        Ok((path, consumes, produces, Some(value)))
                    }
                } else {
                    Err("expected `path`, `consumes`, `produces`, or `config_key`"@)
                }
            },
        }
    }
}

/// The view of a resource configuration.
pub open spec fn resource_view(c: ResourceConfig) -> (Seq<char>, Seq<char>, Seq<char>, Option<Seq<char>>) {
    (
        c.path@,
        c.consumes@,
        c.produces@,
        match c.config_key {
            Some(k) => Some(k@),
            None => None,
        },
    )
}

fn key_seen(args: &Vec<(String, String)>, upto: usize, key: &String) -> (r: bool)
    requires
        upto <= args.len(),
    ensures
        r == (exists|i: int| 0 <= i < upto && args@[i].0@ == key@),
{
    let mut i: usize = 0;
    while i < upto
        invariant
            i <= upto <= args.len(),
            forall|k: int| 0 <= k < i ==> args@[k].0@ != key@,
        decreases upto - i,
    {
        if text_eq(args[i].0.as_str(), key.as_str()) {
            return true;
        }
        i = i + 1;
    }
    false
}

/// Parses resource arguments given as `key = "value"` pairs.
pub fn parse_resource_args(args: &Vec<(String, String)>) -> (r: Result<ResourceConfig, String>)
    ensures
        resource_args_spec(crate::url_model::pairs_view(args@)) matches Ok(v) ==> (r matches Ok(c)
            && resource_view(c) == v),
        resource_args_spec(crate::url_model::pairs_view(args@)) matches Err(m) ==> (r matches Err(e)
            && e@ == m),
{
    let ghost view = crate::url_model::pairs_view(args@);
    let mut config = ResourceConfig {
        path: String::new(),
        consumes: owned("application/json"),
        produces: owned("application/json"),
        config_key: None,
    };
    let mut i: usize = 0;
    proof {
        assert(view.take(0) =~= Seq::<(Seq<char>, Seq<char>)>::empty());
    }
    while i < args.len()
        invariant
            i <= args.len(),
            view == crate::url_model::pairs_view(args@),
            resource_args_spec(view.take(i as int)) == Ok::<_, Seq<char>>(resource_view(config)),
        decreases args.len() - i,
    {
        let ghost prefix = view.take(i + 1);
        proof {
            assert(prefix.drop_last() =~= view.take(i as int));
            assert(prefix.last() == (args@[i as int].0@, args@[i as int].1@));
            assert forall|k: int| 0 <= k < prefix.len() - 1 implies prefix[k].0 == args@[k].0@ by {}
        }
        let key = &args[i].0;
        let value = &args[i].1;
        if key_seen(args, i, key) {
            let mut m = owned("duplicate `");
            push_str(&mut m, key.as_str());
            push_str(&mut m, "` argument");
            proof {
                let k = choose|k: int| 0 <= k < i && args@[k].0@ == key@;
                assert(prefix[k].0 == key@);
                assert(resource_args_spec(prefix) == Err::<(Seq<char>, Seq<char>, Seq<char>, Option<Seq<char>>), Seq<char>>(m@));
                lemma_resource_args_err_extends(view, i + 1);
            }
            return Err(m);
        }
        if text_eq(key.as_str(), "path") {
            config.path = value.clone();
        } else if text_eq(key.as_str(), "consumes") {
            match validate_media_type(value.as_str()) {
                Ok(v) => {
                    config.consumes = v;
                },
                Err(m) => {
                    proof {
                        lemma_resource_args_err_extends(view, i + 1);
                    }
                    return Err(m);
                },
            }
        } else if text_eq(key.as_str(), "produces") {
            match validate_media_type(value.as_str()) {
                Ok(v) => {
                    config.produces = v;
                },
                Err(m) => {
                    proof {
                        lemma_resource_args_err_extends(view, i + 1);
                    }
                    return Err(m);
                },
            }
        } else if text_eq(key.as_str(), "config_key") {
            if value.as_str().is_empty() {
                proof {
                    lemma_resource_args_err_extends(view, i + 1);
                }
                return Err(owned("`config_key` must not be empty"));
            }
            config.config_key = Some(value.clone());
        } else {
            proof {
                lemma_resource_args_err_extends(view, i + 1);
            }
            return Err(owned("expected `path`, `consumes`, `produces`, or `config_key`"));
        }
        i = i + 1;
    }
    proof {
        assert(view.take(args.len() as int) =~= view);
    }
    Ok(config)
}

/// Once a prefix of the resource arguments fails, all of them fail with
/// the same message.
proof fn lemma_resource_args_err_extends(args: Seq<(Seq<char>, Seq<char>)>, k: int)
    requires
        0 <= k <= args.len(),
        resource_args_spec(args.take(k)) is Err,
    ensures
        resource_args_spec(args) == resource_args_spec(args.take(k)),
    decreases args.len() - k,
{
    if k == args.len() {
        assert(args.take(k) =~= args);
    } else {
        assert(args.take(k + 1).drop_last() =~= args.take(k));
        lemma_resource_args_err_extends(args, k + 1);
    }
}

/// HTTP methods of client methods.
#[derive(Debug, Clone, Copy, PartialEq, Eq, Structural)]
pub enum HttpVerb {
    Get,
    Post,
    Put,
    Patch,
    Delete,
    Options,
    Head,
}

/// The arguments of an attribute.
#[derive(Debug, Clone)]
pub enum AttrArgs {
    /// No parentheses: `#[path]`.
    Absent,
    /// Empty parentheses: `#[path()]`.
    Empty,
    /// One string literal: `#[path("id")]`.
    Literal(String),
    /// Anything else.
    Malformed,
}

/// An attribute: its path (`get`, or `catnap::get`) and its arguments.
#[derive(Debug, Clone)]
pub struct AttrSpec {
    /// The segments of the attribute's path.
    pub path: Vec<String>,
    /// The attribute's arguments.
    pub args: AttrArgs,
}

/// Whether an attribute is `#[name]` or `#[catnap::name]`.
pub open spec fn attr_named(a: AttrSpec, name: Seq<char>) -> bool {
    ||| (a.path@.len() == 1 && a.path@[0]@ == name)
    ||| (a.path@.len() == 2 && a.path@[0]@ == "catnap"@ && a.path@[1]@ == name)
}

fn is_attr_named(a: &AttrSpec, name: &str) -> (r: bool)
    ensures
        r == attr_named(*a, name@),
{
    if a.path.len() == 1 {
        text_eq(a.path[0].as_str(), name)
    } else if a.path.len() == 2 {
        text_eq(a.path[0].as_str(), "catnap") && text_eq(a.path[1].as_str(), name)
    } else {
        false
    }
}

/// The verb an attribute names, if any.
pub open spec fn attr_verb(a: AttrSpec) -> Option<HttpVerb> {
    if attr_named(a, "get"@) {
        Some(HttpVerb::Get)
    } else if attr_named(a, "post"@) {
        Some(HttpVerb::Post)
    } else if attr_named(a, "put"@) {
        Some(HttpVerb::Put)
    } else if attr_named(a, "patch"@) {
        Some(HttpVerb::Patch)
    } else if attr_named(a, "delete"@) {
        Some(HttpVerb::Delete)
    } else if attr_named(a, "options"@) {
        Some(HttpVerb::Options)
    } else if attr_named(a, "head"@) {
        Some(HttpVerb::Head)
    } else {
        None
    }
}

fn attr_verb_exec(a: &AttrSpec) -> (r: Option<HttpVerb>)
    ensures
        r == attr_verb(*a),
{
    if is_attr_named(a, "get") {
        Some(HttpVerb::Get)
    } else if is_attr_named(a, "post") {
        Some(HttpVerb::Post)
    } else if is_attr_named(a, "put") {
        Some(HttpVerb::Put)
    } else if is_attr_named(a, "patch") {
        Some(HttpVerb::Patch)
    } else if is_attr_named(a, "delete") {
        Some(HttpVerb::Delete)
    } else if is_attr_named(a, "options") {
        Some(HttpVerb::Options)
    } else if is_attr_named(a, "head") {
        Some(HttpVerb::Head)
    } else {
        None
    }
}

/// The path of a verb attribute: its string literal, or empty.
pub open spec fn verb_path(a: AttrSpec) -> Seq<char> {
    match a.args {
        AttrArgs::Literal(s) => s@,
        _ => Seq::empty(),
    }
}

/// The HTTP method attribute of a method: `Ok(None)` without one, an error
/// when there are several.
pub open spec fn verb_attr_spec(attrs: Seq<AttrSpec>) -> Result<Option<(HttpVerb, Seq<char>)>, Seq<char>>
    decreases attrs.len(),
{
    if attrs.len() == 0 {
        Ok(None)
    } else {
        match verb_attr_spec(attrs.drop_last()) {
            Err(e) => Err(e),
            Ok(found) => match attr_verb(attrs.last()) {
                None => Ok(found),
                Some(v) => if found is Some {
                    Err("REST client methods may have only one HTTP method attribute"@)
                } else {
                    Ok(Some((v, verb_path(attrs.last()))))
                },
            },
        }
    }
}

/// Whether position `i` holds the first HTTP method attribute.
pub open spec fn is_first_verb(attrs: Seq<AttrSpec>, i: int) -> bool {
    &&& 0 <= i < attrs.len()
    &&& attr_verb(attrs[i]) is Some
    &&& forall|j: int| 0 <= j < i ==> attr_verb(#[trigger] attrs[j]) is None
}

/// Finds the HTTP method attribute of a method, the path it gives, and the
/// position of the first one.
fn find_http_attr(attrs: &Vec<AttrSpec>) -> (r: (Result<Option<(HttpVerb, String)>, String>, usize))
    ensures
        verb_attr_spec(attrs@) matches Ok(None) ==> r.0 matches Ok(None),
        verb_attr_spec(attrs@) matches Ok(Some((v, p))) ==> (r.0 matches Ok(Some((v2, p2))) && v2 == v
            && p2@ == p),
        verb_attr_spec(attrs@) matches Err(m) ==> (r.0 matches Err(e) && e@ == m),
        !(verb_attr_spec(attrs@) matches Ok(None)) ==> is_first_verb(attrs@, r.1 as int),
{
    let mut found: Option<(HttpVerb, String)> = None;
    let mut index: usize = 0;
    let mut i: usize = 0;
    proof {
        assert(attrs@.take(0) =~= Seq::<AttrSpec>::empty());
    }
    while i < attrs.len()
        invariant
            i <= attrs.len(),
            verb_attr_spec(attrs@.take(i as int)) matches Ok(f) && (match f {
                None => found is None,
                Some((v, p)) => found matches Some((v2, p2)) && v2 == v && p2@ == p,
            }),
            found is None ==> forall|j: int| 0 <= j < i ==> attr_verb(#[trigger] attrs@[j]) is None,
            found is Some ==> is_first_verb(attrs@, index as int),
        decreases attrs.len() - i,
    {
        proof {
            assert(attrs@.take(i + 1).drop_last() =~= attrs@.take(i as int));
        }
        match attr_verb_exec(&attrs[i]) {
            None => {},
            Some(v) => {
                if found.is_some() {
                    proof {
                        lemma_verb_attr_err_extends(attrs@, i + 1);
                    }
                    return (Err(owned("REST client methods may have only one HTTP method attribute")), index);
                }
                let path = match &attrs[i].args {
                    AttrArgs::Literal(s) => s.clone(),
                    _ => String::new(),
                };
                found = Some((v, path));
                index = i;
            },
        }
        i = i + 1;
    }
    proof {
        assert(attrs@.take(attrs.len() as int) =~= attrs@);
    }
    (Ok(found), index)
}

/// Takes the HTTP method attribute out of a method's attributes and returns
/// its verb and the path it gives; `Ok(None)` without one, and an error
/// when there are several. The first such attribute is removed from the
/// list; without one the list is unchanged.
pub fn take_http_attr(attrs: &mut Vec<AttrSpec>) -> (r: Result<Option<(HttpVerb, String)>, String>)
    ensures
        verb_attr_spec(old(attrs)@) matches Ok(None) ==> r matches Ok(None),
        verb_attr_spec(old(attrs)@) matches Ok(Some((v, p))) ==> (r matches Ok(Some((v2, p2))) && v2 == v
            && p2@ == p),
        verb_attr_spec(old(attrs)@) matches Err(m) ==> (r matches Err(e) && e@ == m),
        verb_attr_spec(old(attrs)@) matches Ok(None) ==> final(attrs)@ == old(attrs)@,
        !(verb_attr_spec(old(attrs)@) matches Ok(None)) ==> exists|i: int|
            is_first_verb(old(attrs)@, i) && final(attrs)@ == old(attrs)@.remove(i),
{
    let (r, index) = find_http_attr(attrs);
    match &r {
        Ok(None) => {},
        _ => {
            attrs.remove(index);
        },
    }
    r
}

proof fn lemma_verb_attr_err_extends(attrs: Seq<AttrSpec>, k: int)
    requires
        0 <= k <= attrs.len(),
        verb_attr_spec(attrs.take(k)) is Err,
    ensures
        verb_attr_spec(attrs) == verb_attr_spec(attrs.take(k)),
    decreases attrs.len() - k,
{
    if k == attrs.len() {
        assert(attrs.take(k) =~= attrs);
    } else {
        assert(attrs.take(k + 1).drop_last() =~= attrs.take(k));
        lemma_verb_attr_err_extends(attrs, k + 1);
    }
}

/// The first attribute with the given name.
pub open spec fn first_attr(attrs: Seq<AttrSpec>, name: Seq<char>) -> Option<AttrSpec>
    decreases attrs.len(),
{
    if attrs.len() == 0 {
        None
    } else if attr_named(attrs[0], name) {
        Some(attrs[0])
    } else {
        first_attr(attrs.drop_first(), name)
    }
}

/// The media type given by a `#[consumes(..)]` or `#[produces(..)]`
/// attribute: its string literal, which must be a valid media type.
pub open spec fn media_attr_spec(attrs: Seq<AttrSpec>, name: Seq<char>) -> Result<Option<Seq<char>>, Seq<char>> {
    match first_attr(attrs, name) {
        None => Ok(None),
        Some(a) => match a.args {
            AttrArgs::Literal(s) => match media_type_failure(s@) {
                Some(m) => Err(m),
                None => Ok(Some(s@)),
            },
            _ => Err("expected string literal"@),
        },
    }
}

/// Whether position `i` holds the first attribute with the given name.
pub open spec fn is_first_named(attrs: Seq<AttrSpec>, name: Seq<char>, i: int) -> bool {
    &&& 0 <= i < attrs.len()
    &&& attr_named(attrs[i], name)
    &&& forall|j: int| 0 <= j < i ==> !attr_named(#[trigger] attrs[j], name)
}

/// Reads a `#[consumes(..)]` or `#[produces(..)]` attribute, and gives the
/// position of the attribute when there is one.
fn find_media_type_attr(attrs: &Vec<AttrSpec>, name: &str) -> (r: (Result<Option<String>, String>, usize))
    ensures
        media_attr_spec(attrs@, name@) matches Ok(None) ==> r.0 matches Ok(None),
        media_attr_spec(attrs@, name@) matches Ok(Some(v)) ==> (r.0 matches Ok(Some(v2)) && v2@ == v),
        media_attr_spec(attrs@, name@) matches Err(m) ==> (r.0 matches Err(e) && e@ == m),
        media_attr_spec(attrs@, name@) matches Ok(Some(_)) ==> is_first_named(attrs@, name@, r.1 as int),
{
    let mut i: usize = 0;
    proof {
        assert(attrs@.skip(0) =~= attrs@);
    }
    while i < attrs.len()
        invariant
            i <= attrs.len(),
            first_attr(attrs@, name@) == first_attr(attrs@.skip(i as int), name@),
            forall|j: int| 0 <= j < i ==> !attr_named(#[trigger] attrs@[j], name@),
        decreases attrs.len() - i,
    {
        proof {
            assert(attrs@.skip(i as int).drop_first() =~= attrs@.skip(i + 1));
            assert(attrs@.skip(i as int)[0] == attrs@[i as int]);
        }
        if is_attr_named(&attrs[i], name) {
            let r = match &attrs[i].args {
                AttrArgs::Literal(s) => match validate_media_type(s.as_str()) {
                    Ok(v) => Ok(Some(v)),
                    Err(m) => Err(m),
                },
                _ => Err(owned("expected string literal")),
            };
            return (r, i);
        }
        i = i + 1;
    }
    (Ok(None), 0)
}

/// Takes a `#[consumes(..)]` or `#[produces(..)]` attribute out of a
/// method's attributes and returns its media type. The first attribute with
/// the name is removed when its media type is valid; otherwise the list is
/// unchanged.
pub fn take_media_type_attr(attrs: &mut Vec<AttrSpec>, name: &str) -> (r: Result<Option<String>, String>)
    ensures
        media_attr_spec(old(attrs)@, name@) matches Ok(None) ==> r matches Ok(None),
        media_attr_spec(old(attrs)@, name@) matches Ok(Some(v)) ==> (r matches Ok(Some(v2)) && v2@ == v),
        media_attr_spec(old(attrs)@, name@) matches Err(m) ==> (r matches Err(e) && e@ == m),
        media_attr_spec(old(attrs)@, name@) matches Ok(Some(_)) ==> exists|i: int|
            is_first_named(old(attrs)@, name@, i) && final(attrs)@ == old(attrs)@.remove(i),
        !(media_attr_spec(old(attrs)@, name@) matches Ok(Some(_))) ==> final(attrs)@ == old(attrs)@,
{
    let (r, index) = find_media_type_attr(attrs, name);
    match &r {
        Ok(Some(_)) => {
            attrs.remove(index);
        },
        _ => {},
    }
    r
}

/// What a client method returns, as far as the plan depends on it.
#[derive(Debug, Clone, Copy, PartialEq, Eq, Structural)]
pub enum ReturnKind {
    /// The raw `Response`.
    Response,
    /// `()`.
    Unit,
    /// `String`.
    Text,
    /// Any other type.
    Other,
}

/// The return type of a client method.
#[derive(Debug, Clone)]
pub enum ReturnSpec {
    /// No return type.
    Default,
    /// A type named `Result` with the given type arguments.
    Result(Vec<ReturnKind>),
    /// Any other type.
    Other,
}

/// A parameter of a client method: its name when it is a simple
/// identifier, and its attributes.
#[derive(Debug, Clone)]
pub struct ParamSpec {
    /// The parameter's identifier, when its pattern is one.
    pub ident: Option<String>,
    /// The parameter's attributes.
    pub attrs: Vec<AttrSpec>,
}

/// A method of a client definition.
#[derive(Debug, Clone)]
pub struct MethodSpec {
    /// Whether the method is `async`.
    pub is_async: bool,
    /// Whether the first parameter is `&self`.
    pub takes_ref_self: bool,
    /// The method's attributes.
    pub attrs: Vec<AttrSpec>,
    /// The parameters after `&self`.
    pub params: Vec<ParamSpec>,
    /// The return type.
    pub return_type: ReturnSpec,
}

/// How a request body is encoded.
#[derive(Debug, Clone, Copy, PartialEq, Eq, Structural)]
pub enum BodyEncoding {
    Json,
    Xml,
    Text,
    /// The media type is not supported; the call fails.
    Unsupported,
}

/// How a response is read.
#[derive(Debug, Clone, Copy, PartialEq, Eq, Structural)]
pub enum ResponseDecoding {
    /// The raw response, without status mapping.
    Raw,
    /// Status only.
    Empty,
    /// The body as text.
    Text,
    Json,
    Xml,
    /// The media type is not supported; the call fails.
    Unsupported,
}

/// How a client method makes its request.
#[derive(Debug, Clone)]
pub struct MethodPlan {
    /// The HTTP method.
    pub verb: HttpVerb,
    /// The full path template.
    pub path: String,
    /// The `Accept` media type.
    pub accept: String,
    /// The media type of a request body.
    pub content_type: String,
    /// Placeholder names and the arguments substituted for them.
    pub path_params: Vec<(String, String)>,
    /// Query parameter names and their arguments.
    pub query_params: Vec<(String, String)>,
    /// Header names and their arguments.
    pub header_params: Vec<(String, String)>,
    /// The body argument and its encoding.
    pub body: Option<(String, BodyEncoding)>,
    /// How the response is read.
    pub response: ResponseDecoding,
}

/// The role of a parameter.
pub enum RoleView {
    Path(Seq<char>),
    Query(Seq<char>),
    Header(Seq<char>),
    Body,
}

/// How many attributes of a parameter bind it (`path`, `query`, `header`).
pub open spec fn binding_count(attrs: Seq<AttrSpec>) -> nat
    decreases attrs.len(),
{
    if attrs.len() == 0 {
        0
    } else {
        binding_count(attrs.drop_last()) + (if attr_named(attrs.last(), "path"@) || attr_named(
            attrs.last(),
            "query"@,
        ) || attr_named(attrs.last(), "header"@) {
            1nat
        } else {
            0nat
        })
    }
}

/// The name a `#[path]` or `#[query]` attribute binds: its literal, or the
/// parameter's own name without one.
pub open spec fn bound_name(args: AttrArgs, ident: Seq<char>, kind: Seq<char>) -> Result<Seq<char>, Seq<char>> {
    match args {
        AttrArgs::Literal(s) => if s@.len() == 0 {
            Err("#["@ + kind + "] parameter names must not be empty"@)
        } else {
            Ok(s@)
        },
        AttrArgs::Malformed => Err("expected string literal"@),
        _ => Ok(ident),
    }
}

/// The role of one parameter.
pub open spec fn param_role_spec(p: ParamSpec) -> Result<RoleView, Seq<char>> {
    match p.ident {
        None => Err("REST client method parameters must use simple identifier patterns"@),
        Some(ident) => if binding_count(p.attrs@) > 1 {
            Err("REST client parameters may have only one of #[path()], #[query()], or #[header]"@)
        } else {
            match first_attr(p.attrs@, "path"@) {
                Some(a) => match bound_name(a.args, ident@, "path"@) {
                    Ok(n) => Ok(RoleView::Path(n)),
                    Err(m) => Err(m),
                },
                None => match first_attr(p.attrs@, "query"@) {
                    Some(a) => match bound_name(a.args, ident@, "query"@) {
                        Ok(n) => Ok(RoleView::Query(n)),
                        Err(m) => Err(m),
                    },
                    None => match first_attr(p.attrs@, "header"@) {
                        Some(a) => match a.args {
                            AttrArgs::Literal(s) => if header_name_valid(s@) {
                                Ok(RoleView::Header(s@))
                            } else {
                                Err("`"@ + s@ + "` is not a valid HTTP header name"@)
                            },
                            _ => Err("expected string literal"@),
                        },
                        None => Ok(RoleView::Body),
                    },
                },
            }
        },
    }
}

/// The bindings collected from parameters.
pub struct ParamsView {
    pub path: Seq<(Seq<char>, Seq<char>)>,
    pub query: Seq<(Seq<char>, Seq<char>)>,
    pub header: Seq<(Seq<char>, Seq<char>)>,
    pub body: Option<Seq<char>>,
}

/// The bindings of all parameters, in order; the first parameter that
/// fails gives the error, and a second unannotated parameter is an error.
pub open spec fn params_spec(ps: Seq<ParamSpec>) -> Result<ParamsView, Seq<char>>
    decreases ps.len(),
{
    if ps.len() == 0 {
        Ok(ParamsView { path: seq![], query: seq![], header: seq![], body: None })
    } else {
        match params_spec(ps.drop_last()) {
            Err(e) => Err(e),
            Ok(st) => {
                let ident = ps.last().ident->0@;
                match param_role_spec(ps.last()) {
                    Err(m) => Err(m),
                    Ok(RoleView::Path(n)) => Ok(ParamsView { path: st.path.push((n, ident)), ..st }),
                    Ok(RoleView::Query(n)) => Ok(ParamsView { query: st.query.push((n, ident)), ..st }),
                    Ok(RoleView::Header(n)) => Ok(ParamsView { header: st.header.push((n, ident)), ..st }),
                    Ok(RoleView::Body) => if st.body is Some {
                        Err("REST client methods may have at most one unannotated body argument"@)
                    } else {
                        Ok(ParamsView { body: Some(ident), ..st })
                    },
                }
            },
        }
    }
}

/// How a body in a given media type is encoded.
pub open spec fn body_encoding_spec(consumes: Seq<char>) -> BodyEncoding {
    if consumes == "application/json"@ {
        BodyEncoding::Json
    } else if consumes == "application/xml"@ || consumes == "text/xml"@ {
        BodyEncoding::Xml
    } else if consumes == "text/plain"@ {
        BodyEncoding::Text
    } else {
        BodyEncoding::Unsupported
    }
}

/// How a response is read, from the method's return type and the media
/// type it produces: a raw `Response` and `()` regardless of media type, a
/// `String` as text for `text/plain`, otherwise by the media type.
pub open spec fn response_spec(return_type: ReturnSpec, produces: Seq<char>) -> Result<ResponseDecoding, Seq<char>> {
    match return_type {
        ReturnSpec::Result(args) => if args@.len() != 1 {
            Err("REST client methods must return catnap::Result<T> with one type parameter"@)
        } else if args@[0] == ReturnKind::Response {
            Ok(ResponseDecoding::Raw)
        } else if args@[0] == ReturnKind::Unit {
            Ok(ResponseDecoding::Empty)
        } else if args@[0] == ReturnKind::Text && produces == "text/plain"@ {
            Ok(ResponseDecoding::Text)
        } else if produces == "application/json"@ {
            Ok(ResponseDecoding::Json)
        } else if produces == "application/xml"@ || produces == "text/xml"@ {
            Ok(ResponseDecoding::Xml)
        } else {
            Ok(ResponseDecoding::Unsupported)
        },
        _ => Err("REST client methods must return catnap::Result<T> with one type parameter"@),
    }
}

/// How a body argument in a given media type is encoded.
pub fn body_for(consumes: &str) -> (e: BodyEncoding)
    ensures
        e == body_encoding_spec(consumes@),
{
    if text_eq(consumes, "application/json") {
        BodyEncoding::Json
    } else if text_eq(consumes, "application/xml") || text_eq(consumes, "text/xml") {
        BodyEncoding::Xml
    } else if text_eq(consumes, "text/plain") {
        BodyEncoding::Text
    } else {
        BodyEncoding::Unsupported
    }
}

/// How the response of a method is read.
pub fn sender_for(return_type: &ReturnSpec, produces: &str) -> (r: Result<ResponseDecoding, String>)
    ensures
        response_spec(*return_type, produces@) matches Ok(d) ==> r == Ok::<ResponseDecoding, String>(d),
        response_spec(*return_type, produces@) matches Err(m) ==> (r matches Err(e) && e@ == m),
{
    match return_type {
        ReturnSpec::Result(args) => {
            if args.len() != 1 {
                Err(owned("REST client methods must return catnap::Result<T> with one type parameter"))
            } else if args[0] == ReturnKind::Response {
                Ok(ResponseDecoding::Raw)
            } else if args[0] == ReturnKind::Unit {
                Ok(ResponseDecoding::Empty)
            } else if args[0] == ReturnKind::Text && text_eq(produces, "text/plain") {
                Ok(ResponseDecoding::Text)
            } else if text_eq(produces, "application/json") {
                Ok(ResponseDecoding::Json)
            } else if text_eq(produces, "application/xml") || text_eq(produces, "text/xml") {
                Ok(ResponseDecoding::Xml)
            } else {
                Ok(ResponseDecoding::Unsupported)
            }
        },
        _ => Err(owned("REST client methods must return catnap::Result<T> with one type parameter")),
    }
}


/// The role of a parameter.
#[derive(Debug, Clone)]
pub enum Role {
    /// Substituted for the named placeholder.
    Path(String),
    /// Sent as the named query parameter.
    Query(String),
    /// Sent as the named header.
    Header(String),
    /// Sent as the request body.
    Body,
}

/// The view of a role.
pub open spec fn role_view(r: Role) -> RoleView {
    match r {
        Role::Path(n) => RoleView::Path(n@),
        Role::Query(n) => RoleView::Query(n@),
        Role::Header(n) => RoleView::Header(n@),
        Role::Body => RoleView::Body,
    }
}

fn count_bindings(attrs: &Vec<AttrSpec>) -> (n: usize)
    ensures
        n == binding_count(attrs@),
{
    let mut n: usize = 0;
    let mut i: usize = 0;
    proof {
        assert(attrs@.take(0) =~= Seq::<AttrSpec>::empty());
    }
    while i < attrs.len()
        invariant
            i <= attrs.len(),
            n <= i,
            n == binding_count(attrs@.take(i as int)),
        decreases attrs.len() - i,
    {
        proof {
            assert(attrs@.take(i + 1).drop_last() =~= attrs@.take(i as int));
        }
        if is_attr_named(&attrs[i], "path") || is_attr_named(&attrs[i], "query") || is_attr_named(
            &attrs[i],
            "header",
        ) {
            n = n + 1;
        }
        i = i + 1;
    }
    proof {
        assert(attrs@.take(attrs.len() as int) =~= attrs@);
    }
    n
}

fn find_attr<'a>(attrs: &'a Vec<AttrSpec>, name: &str) -> (r: Option<&'a AttrSpec>)
    ensures
        first_attr(attrs@, name@) is None <==> r is None,
        r matches Some(a) ==> first_attr(attrs@, name@) == Some(*a),
{
    let mut i: usize = 0;
    proof {
        assert(attrs@.skip(0) =~= attrs@);
    }
    while i < attrs.len()
        invariant
            i <= attrs.len(),
            first_attr(attrs@, name@) == first_attr(attrs@.skip(i as int), name@),
        decreases attrs.len() - i,
    {
        proof {
            assert(attrs@.skip(i as int).drop_first() =~= attrs@.skip(i + 1));
            assert(attrs@.skip(i as int)[0] == attrs@[i as int]);
        }
        if is_attr_named(&attrs[i], name) {
            return Some(&attrs[i]);
        }
        i = i + 1;
    }
    None
}

fn bound_name_exec(args: &AttrArgs, ident: &String, kind: &str) -> (r: Result<String, String>)
    ensures
        bound_name(*args, ident@, kind@) matches Ok(n) ==> (r matches Ok(x) && x@ == n),
        bound_name(*args, ident@, kind@) matches Err(m) ==> (r matches Err(x) && x@ == m),
{
    match args {
        AttrArgs::Literal(s) => {
            if s.as_str().is_empty() {
                let mut m = owned("#[");
                push_str(&mut m, kind);
                push_str(&mut m, "] parameter names must not be empty");
                Err(m)
            } else {
                Ok(s.clone())
            }
        },
        AttrArgs::Malformed => Err(owned("expected string literal")),
        _ => Ok(ident.clone()),
    }
}

/// The role of a parameter, from its attributes.
pub fn param_role(p: &ParamSpec) -> (r: Result<Role, String>)
    ensures
        param_role_spec(*p) matches Ok(v) ==> (r matches Ok(x) && role_view(x) == v),
        param_role_spec(*p) matches Err(m) ==> (r matches Err(x) && x@ == m),
{
    let ident = match &p.ident {
        None => {
            return Err(owned("REST client method parameters must use simple identifier patterns"));
        },
        Some(i) => i,
    };
    if count_bindings(&p.attrs) > 1 {
        return Err(owned("REST client parameters may have only one of #[path()], #[query()], or #[header]"));
    }
    match find_attr(&p.attrs, "path") {
        Some(a) => {
            return match bound_name_exec(&a.args, ident, "path") {
                Ok(n) => Ok(Role::Path(n)),
                Err(m) => Err(m),
            };
        },
        None => {},
    }
    match find_attr(&p.attrs, "query") {
        Some(a) => {
            return match bound_name_exec(&a.args, ident, "query") {
                Ok(n) => Ok(Role::Query(n)),
                Err(m) => Err(m),
            };
        },
        None => {},
    }
    match find_attr(&p.attrs, "header") {
        Some(a) => match &a.args {
            AttrArgs::Literal(s) => {
                if parse_header_name(s.as_str()).is_some() {
                    Ok(Role::Header(s.clone()))
                } else {
                    let mut m = owned("`");
                    push_str(&mut m, s.as_str());
                    push_str(&mut m, "` is not a valid HTTP header name");
                    Err(m)
                }
            },
            _ => Err(owned("expected string literal")),
        },
        None => Ok(Role::Body),
    }
}

/// The bindings of a method's parameters.
#[derive(Debug, Clone)]
pub struct ParamBindings {
    /// Placeholder names and arguments.
    pub path: Vec<(String, String)>,
    /// Query parameter names and arguments.
    pub query: Vec<(String, String)>,
    /// Header names and arguments.
    pub header: Vec<(String, String)>,
    /// The body argument.
    pub body: Option<String>,
}

/// The view of parameter bindings.
pub open spec fn bindings_view(b: ParamBindings) -> ParamsView {
    ParamsView {
        path: crate::url_model::pairs_view(b.path@),
        query: crate::url_model::pairs_view(b.query@),
        header: crate::url_model::pairs_view(b.header@),
        body: match b.body {
            Some(x) => Some(x@),
            None => None,
        },
    }
}

proof fn lemma_params_err_extends(ps: Seq<ParamSpec>, k: int)
    requires
        0 <= k <= ps.len(),
        params_spec(ps.take(k)) is Err,
    ensures
        params_spec(ps) == params_spec(ps.take(k)),
    decreases ps.len() - k,
{
    if k == ps.len() {
        assert(ps.take(k) =~= ps);
    } else {
        assert(ps.take(k + 1).drop_last() =~= ps.take(k));
        lemma_params_err_extends(ps, k + 1);
    }
}

fn push_pair(v: &mut Vec<(String, String)>, a: String, b: String)
    ensures
        crate::url_model::pairs_view(final(v)@) == crate::url_model::pairs_view(old(v)@).push((a@, b@)),
{
    v.push((a, b));
    proof {
        assert(crate::url_model::pairs_view(v@) =~= crate::url_model::pairs_view(old(v)@).push((a@, b@)));
    }
}

/// Binds every parameter of a method.
pub fn bind_params(params: &Vec<ParamSpec>) -> (r: Result<ParamBindings, String>)
    ensures
        params_spec(params@) matches Ok(v) ==> (r matches Ok(x) && bindings_view(x) == v),
        params_spec(params@) matches Err(m) ==> (r matches Err(x) && x@ == m),
{
    let mut b = ParamBindings { path: Vec::new(), query: Vec::new(), header: Vec::new(), body: None };
    let mut i: usize = 0;
    proof {
        assert(params@.take(0) =~= Seq::<ParamSpec>::empty());
        assert(crate::url_model::pairs_view(b.path@) =~= Seq::<(Seq<char>, Seq<char>)>::empty());
        assert(crate::url_model::pairs_view(b.query@) =~= Seq::<(Seq<char>, Seq<char>)>::empty());
        assert(crate::url_model::pairs_view(b.header@) =~= Seq::<(Seq<char>, Seq<char>)>::empty());
    }
    while i < params.len()
        invariant
            i <= params.len(),
            params_spec(params@.take(i as int)) == Ok::<ParamsView, Seq<char>>(bindings_view(b)),
        decreases params.len() - i,
    {
        let p = &params[i];
        proof {
            assert(params@.take(i + 1).drop_last() =~= params@.take(i as int));
            assert(params@.take(i + 1).last() == *p);
        }
        let role = param_role(p);
        let ident = match &p.ident {
            Some(x) => x.clone(),
            None => String::new(),
        };
        match role {
            Err(m) => {
                proof {
                    lemma_params_err_extends(params@, i + 1);
                }
                return Err(m);
            },
            Ok(Role::Path(n)) => {
                push_pair(&mut b.path, n, ident);
            },
            Ok(Role::Query(n)) => {
                push_pair(&mut b.query, n, ident);
            },
            Ok(Role::Header(n)) => {
                push_pair(&mut b.header, n, ident);
            },
            Ok(Role::Body) => {
                if b.body.is_some() {
                    proof {
                        lemma_params_err_extends(params@, i + 1);
                    }
                    return Err(owned("REST client methods may have at most one unannotated body argument"));
                }
                b.body = Some(ident);
            },
        }
        proof {
            assert(params_spec(params@.take(i + 1)) == Ok::<ParamsView, Seq<char>>(bindings_view(b)));
        }
        i = i + 1;
    }
    proof {
        assert(params@.take(params.len() as int) =~= params@);
    }
    Ok(b)
}


/// The view of a method plan.
pub struct PlanView {
    pub verb: HttpVerb,
    pub path: Seq<char>,
    pub accept: Seq<char>,
    pub content_type: Seq<char>,
    pub path_params: Seq<(Seq<char>, Seq<char>)>,
    pub query_params: Seq<(Seq<char>, Seq<char>)>,
    pub header_params: Seq<(Seq<char>, Seq<char>)>,
    pub body: Option<(Seq<char>, BodyEncoding)>,
    pub response: ResponseDecoding,
}

/// The view of a method plan.
pub open spec fn plan_view(p: MethodPlan) -> PlanView {
    PlanView {
        verb: p.verb,
        path: p.path@,
        accept: p.accept@,
        content_type: p.content_type@,
        path_params: crate::url_model::pairs_view(p.path_params@),
        query_params: crate::url_model::pairs_view(p.query_params@),
        header_params: crate::url_model::pairs_view(p.header_params@),
        body: match p.body {
            Some((b, e)) => Some((b@, e)),
            None => None,
        },
        response: p.response,
    }
}

/// The placeholder names that path parameters bind.
pub open spec fn bound_placeholders(path: Seq<(Seq<char>, Seq<char>)>) -> Seq<Seq<char>> {
    path.map_values(|b: (Seq<char>, Seq<char>)| b.0)
}

/// How a method of a resource makes its request, or why the method is
/// rejected. Checks, in order: the method is async and takes `&self`; it has
/// exactly one HTTP method attribute; its media type attributes are valid;
/// its parameters bind correctly; the joined path's placeholders are closed
/// and unique and match the path parameters exactly; GET and HEAD have no
/// body; the return type is `Result<T>`.
pub open spec fn method_plan_spec(
    resource: (Seq<char>, Seq<char>, Seq<char>, Option<Seq<char>>),
    m: MethodSpec,
) -> Result<PlanView, Seq<char>> {
    let (rpath, rconsumes, rproduces, _) = resource;
    if !m.is_async {
        Err("REST client methods must be async"@)
    } else if !m.takes_ref_self {
        Err("REST client methods must take &self as the first parameter"@)
    } else {
        match verb_attr_spec(m.attrs@) {
            Err(e) => Err(e),
            Ok(None) => Err("REST client methods must have an HTTP method attribute"@),
            Ok(Some((verb, mpath))) => match media_attr_spec(m.attrs@, "consumes"@) {
                Err(e) => Err(e),
                Ok(c) => match media_attr_spec(m.attrs@, "produces"@) {
                    Err(e) => Err(e),
                    Ok(pr) => {
                        let consumes = match c {
                            Some(x) => x,
                            None => rconsumes,
                        };
                        let produces = match pr {
                            Some(x) => x,
                            None => rproduces,
                        };
                        let full = join_paths_spec(rpath, mpath);
                        match params_spec(m.params@) {
                            Err(e) => Err(e),
                            Ok(ps) => if unclosed_from(full, 0) {
                                Err("unclosed `{` in path placeholder"@)
                            } else if has_duplicates(placeholders_spec(full)) {
                                Err("REST client path placeholders must be unique"@)
                            } else {
                                match path_params_failure(placeholders_spec(full), bound_placeholders(ps.path)) {
                                    Some(e) => Err(e),
                                    None => if (verb == HttpVerb::Get || verb == HttpVerb::Head) && ps.body is Some {
                                        Err("GET and HEAD REST client methods cannot have request body arguments"@)
                                    } else {
                                        match response_spec(m.return_type, produces) {
                                            Err(e) => Err(e),
                                            Ok(resp) => Ok(
                                                PlanView {
                                                    verb,
                                                    path: full,
                                                    accept: produces,
                                                    content_type: consumes,
                                                    path_params: ps.path,
                                                    query_params: ps.query,
                                                    header_params: ps.header,
                                                    body: match ps.body {
                                                        Some(b) => Some((b, body_encoding_spec(consumes))),
                                                        None => None,
                                                    },
                                                    response: resp,
                                                },
                                            ),
                                        }
                                    },
                                }
                            },
                        }
                    },
                },
            },
        }
    }
}

fn placeholder_names(path: &Vec<(String, String)>) -> (r: Vec<String>)
    ensures
        names_view(r@) == bound_placeholders(crate::url_model::pairs_view(path@)),
{
    let mut out: Vec<String> = Vec::new();
    let mut i: usize = 0;
    while i < path.len()
        invariant
            i <= path.len(),
            names_view(out@) == bound_placeholders(crate::url_model::pairs_view(path@)).take(i as int),
        decreases path.len() - i,
    {
        let ghost before = out@;
        out.push(path[i].0.clone());
        proof {
            assert(names_view(out@) =~= names_view(before).push(path@[i as int].0@));
            assert(bound_placeholders(crate::url_model::pairs_view(path@)).take(i + 1) =~= bound_placeholders(
                crate::url_model::pairs_view(path@),
            ).take(i as int).push(path@[i as int].0@));
        }
        i = i + 1;
    }
    proof {
        assert(bound_placeholders(crate::url_model::pairs_view(path@)).take(path.len() as int)
            =~= bound_placeholders(crate::url_model::pairs_view(path@)));
    }
    out
}

/// Plans how a method of a resource makes its request.
pub fn plan_method(resource: &ResourceConfig, m: &MethodSpec) -> (r: Result<MethodPlan, String>)
    ensures
        method_plan_spec(resource_view(*resource), *m) matches Ok(v) ==> (r matches Ok(p) && plan_view(p)
            == v),
        method_plan_spec(resource_view(*resource), *m) matches Err(e) ==> (r matches Err(x) && x@ == e),
{
    if !m.is_async {
        return Err(owned("REST client methods must be async"));
    }
    if !m.takes_ref_self {
        return Err(owned("REST client methods must take &self as the first parameter"));
    }
    let (verb, method_path) = match find_http_attr(&m.attrs).0 {
        Err(e) => {
            return Err(e);
        },
        Ok(None) => {
            return Err(owned("REST client methods must have an HTTP method attribute"));
        },
        Ok(Some(found)) => found,
    };
    let consumes = match find_media_type_attr(&m.attrs, "consumes").0 {
        Err(e) => {
            return Err(e);
        },
        Ok(Some(c)) => c,
        Ok(None) => resource.consumes.clone(),
    };
    let produces = match find_media_type_attr(&m.attrs, "produces").0 {
        Err(e) => {
            return Err(e);
        },
        Ok(Some(p)) => p,
        Ok(None) => resource.produces.clone(),
    };
    let full_path = join_paths(resource.path.as_str(), method_path.as_str());
    let bindings = match bind_params(&m.params) {
        Err(e) => {
            return Err(e);
        },
        Ok(b) => b,
    };
    if has_unclosed_placeholder(full_path.as_str()) {
        return Err(owned("unclosed `{` in path placeholder"));
    }
    let placeholders = path_placeholders(full_path.as_str());
    if find_duplicates(&placeholders) {
        return Err(owned("REST client path placeholders must be unique"));
    }
    let names = placeholder_names(&bindings.path);
    match validate_path_params(full_path.as_str(), &names) {
        Err(e) => {
            return Err(e);
        },
        Ok(()) => {},
    }
    if (verb == HttpVerb::Get || verb == HttpVerb::Head) && bindings.body.is_some() {
        return Err(owned("GET and HEAD REST client methods cannot have request body arguments"));
    }
    let response = match sender_for(&m.return_type, produces.as_str()) {
        Err(e) => {
            return Err(e);
        },
        Ok(d) => d,
    };
    let body = match bindings.body {
        Some(b) => Some((b, body_for(consumes.as_str()))),
        None => None,
    };
    Ok(MethodPlan {
        verb,
        path: full_path,
        accept: produces,
        content_type: consumes,
        path_params: bindings.path,
        query_params: bindings.query,
        header_params: bindings.header,
        body,
        response,
    })
}


/// The errors of the methods that are rejected, in method order.
pub open spec fn method_errors(
    resource: (Seq<char>, Seq<char>, Seq<char>, Option<Seq<char>>),
    ms: Seq<MethodSpec>,
) -> Seq<Seq<char>>
    decreases ms.len(),
{
    if ms.len() == 0 {
        seq![]
    } else {
        method_errors(resource, ms.drop_last()) + match method_plan_spec(resource, ms.last()) {
            Err(e) => seq![e],
            Ok(_) => seq![],
        }
    }
}

/// The plans of the methods that are accepted, in method order.
pub open spec fn method_plans(
    resource: (Seq<char>, Seq<char>, Seq<char>, Option<Seq<char>>),
    ms: Seq<MethodSpec>,
) -> Seq<PlanView>
    decreases ms.len(),
{
    if ms.len() == 0 {
        seq![]
    } else {
        method_plans(resource, ms.drop_last()) + match method_plan_spec(resource, ms.last()) {
            Err(_) => seq![],
            Ok(p) => seq![p],
        }
    }
}

/// The generated client of a resource: its type name, configuration key
/// and the plan of every method.
#[derive(Debug, Clone)]
pub struct ClientPlan {
    /// `<TraitName>Client`.
    pub client_name: String,
    /// The configuration key: the `config_key` argument, or the trait name.
    pub config_key: String,
    /// The plan of every method, in order.
    pub methods: Vec<MethodPlan>,
}

/// The views of a list of method plans.
pub open spec fn plans_view(ps: Seq<MethodPlan>) -> Seq<PlanView> {
    ps.map_values(|p: MethodPlan| plan_view(p))
}

/// Plans a whole client definition: resource arguments first, then every
/// method; all rejected methods are reported, in order.
pub fn plan_rest_client(trait_name: &str, args: &Vec<(String, String)>, methods: &Vec<MethodSpec>) -> (r: Result<
    ClientPlan,
    Vec<String>,
>)
    ensures
        resource_args_spec(crate::url_model::pairs_view(args@)) matches Err(m) ==> (r matches Err(es)
            && names_view(es@) == seq![m]),
        resource_args_spec(crate::url_model::pairs_view(args@)) matches Ok(res) ==> {
            let errors = method_errors(res, methods@);
            &&& (errors.len() > 0 ==> (r matches Err(es) && names_view(es@) == errors))
            &&& (errors.len() == 0 ==> (r matches Ok(plan) && plan.client_name@ == trait_name@ + "Client"@
                && plan.config_key@ == (match res.3 {
                Some(k) => k,
                None => trait_name@,
            }) && plans_view(plan.methods@) == method_plans(res, methods@)))
        },
{
    let resource = match parse_resource_args(args) {
        Err(m) => {
            let mut es: Vec<String> = Vec::new();
            es.push(m);
            proof {
                assert(names_view(es@) =~= seq![m@]);
            }
            return Err(es);
        },
        Ok(c) => c,
    };
    let ghost res = resource_view(resource);
    let mut errors: Vec<String> = Vec::new();
    let mut plans: Vec<MethodPlan> = Vec::new();
    let mut i: usize = 0;
    proof {
        assert(methods@.take(0) =~= Seq::<MethodSpec>::empty());
        assert(names_view(errors@) =~= Seq::<Seq<char>>::empty());
        assert(plans_view(plans@) =~= Seq::<PlanView>::empty());
    }
    while i < methods.len()
        invariant
            i <= methods.len(),
            res == resource_view(resource),
            names_view(errors@) == method_errors(res, methods@.take(i as int)),
            plans_view(plans@) == method_plans(res, methods@.take(i as int)),
        decreases methods.len() - i,
    {
        proof {
            assert(methods@.take(i + 1).drop_last() =~= methods@.take(i as int));
            assert(methods@.take(i + 1).last() == methods@[i as int]);
        }
        let ghost e0 = errors@;
        let ghost p0 = plans@;
        match plan_method(&resource, &methods[i]) {
            Ok(p) => {
                plans.push(p);
                proof {
                    assert(plans_view(plans@) =~= plans_view(p0) + seq![plan_view(p)]);
                    assert(names_view(errors@) =~= names_view(e0) + Seq::<Seq<char>>::empty());
                }
            },
            Err(e) => {
                errors.push(e);
                proof {
                    assert(names_view(errors@) =~= names_view(e0) + seq![e@]);
                    assert(plans_view(plans@) =~= plans_view(p0) + Seq::<PlanView>::empty());
                }
            },
        }
        i = i + 1;
    }
    proof {
        assert(methods@.take(methods.len() as int) =~= methods@);
    }
    if errors.len() > 0 {
        return Err(errors);
    }
    let mut client_name = owned(trait_name);
    push_str(&mut client_name, "Client");
    let config_key = match &resource.config_key {
        Some(k) => k.clone(),
        None => owned(trait_name),
    };
    Ok(ClientPlan { client_name, config_key, methods: plans })
}

} // verus!
