//! Properties of the library that relate several functions or hold for all
//! inputs.

use vstd::prelude::*;

use crate::builder::with_header;
use crate::client::{join_spec, query_params_spec, trim_leading_slashes};
use crate::config::{
    env_findings, env_loaded, env_settings_applied, query_style_spec, QueryParamStyle, RestClientConfig,
};
use crate::env_config::{
    env_lookup, env_prefix_spec, first_found, global_env_prefix, global_mp_prefix, mp_prefix_spec,
    normalize_key_char, source_get_spec,
};
use crate::headers::{ascii_lower, header_list_view, header_lookup, header_name_canonical, lemma_header_insert, names_unique};
use crate::paths::{join_paths_spec, trim_trailing_slashes};
use crate::percent::{encodes_byte, hex_upper, path_segment_spec, segment_byte_spec};
use crate::resource::{first_attr, first_missing, method_plan_spec, occurs, path_params_failure, MethodSpec};

verus! {

/// For a single property, the MicroProfile-style key wins over the
/// shell-friendly key: when `<prefix><property>` is set, its value is read,
/// whatever the shell-friendly key holds.
pub proof fn law_microprofile_key_wins(
    mp_prefix: Seq<char>,
    env_prefix: Seq<char>,
    env: Seq<(Seq<char>, Seq<char>)>,
    property: Seq<char>,
)
    requires
        env_lookup(env, mp_prefix + property) is Some,
    ensures
        source_get_spec(mp_prefix, env_prefix, env, property) == Some(
            (mp_prefix + property, env_lookup(env, mp_prefix + property)->0),
        ),
{
}

/// Without the MicroProfile-style key, the shell-friendly key
/// `<PREFIX><PROPERTY>` (camel case turned into upper snake case) is read.
pub proof fn law_shell_key_fallback(
    mp_prefix: Seq<char>,
    env_prefix: Seq<char>,
    env: Seq<(Seq<char>, Seq<char>)>,
    property: Seq<char>,
)
    requires
        env_lookup(env, mp_prefix + property) is None,
    ensures
        source_get_spec(mp_prefix, env_prefix, env, property) == (match env_lookup(
            env,
            env_prefix + crate::env_config::env_property_spec(property),
        ) {
            Some(v) => Some((env_prefix + crate::env_config::env_property_spec(property), v)),
            None => None,
        }),
{
}

/// `uri` wins over `url`: when `uri` is set for the config key, the base
/// URL is read from it.
pub proof fn law_uri_wins_over_url(config_key: Seq<char>, env: Seq<(Seq<char>, Seq<char>)>)
    requires
        source_get_spec(mp_prefix_spec(config_key), env_prefix_spec(config_key), env, "uri"@) is Some,
    ensures
        env_findings(config_key, env).url == source_get_spec(
            mp_prefix_spec(config_key),
            env_prefix_spec(config_key),
            env,
            "uri"@,
        ),
{
    reveal_with_fuel(first_found, 2);
}

/// Without `uri`, the base URL is read from `url`.
pub proof fn law_url_without_uri(config_key: Seq<char>, env: Seq<(Seq<char>, Seq<char>)>)
    requires
        source_get_spec(mp_prefix_spec(config_key), env_prefix_spec(config_key), env, "uri"@) is None,
    ensures
        env_findings(config_key, env).url == source_get_spec(
            mp_prefix_spec(config_key),
            env_prefix_spec(config_key),
            env,
            "url"@,
        ),
{
    reveal_with_fuel(first_found, 3);
    assert(seq!["uri"@, "url"@].drop_first() =~= seq!["url"@]);
    assert(seq!["url"@].drop_first() =~= Seq::<Seq<char>>::empty());
}

/// `proxyAddress` wins over `proxy`.
pub proof fn law_proxy_address_wins_over_proxy(config_key: Seq<char>, env: Seq<(Seq<char>, Seq<char>)>)
    requires
        source_get_spec(mp_prefix_spec(config_key), env_prefix_spec(config_key), env, "proxyAddress"@)
            is Some,
    ensures
        env_findings(config_key, env).proxy == source_get_spec(
            mp_prefix_spec(config_key),
            env_prefix_spec(config_key),
            env,
            "proxyAddress"@,
        ),
{
    reveal_with_fuel(first_found, 2);
}

/// `disable.default.mapper` wins over
/// `disable.default.response.exception.mapper`.
pub proof fn law_default_mapper_setting_precedence(config_key: Seq<char>, env: Seq<(Seq<char>, Seq<char>)>)
    requires
        source_get_spec(global_mp_prefix(), global_env_prefix(), env, "disable.default.mapper"@) is Some,
    ensures
        env_findings(config_key, env).disable_default_mapper == source_get_spec(
            global_mp_prefix(),
            global_env_prefix(),
            env,
            "disable.default.mapper"@,
        ),
{
    reveal_with_fuel(first_found, 2);
}

/// Every element of `s` occurs in `others` exactly when nothing is
/// missing.
proof fn lemma_first_missing(s: Seq<Seq<char>>, others: Seq<Seq<char>>)
    ensures
        first_missing(s, others) is None <==> forall|i: int| 0 <= i < s.len() ==> occurs(others, #[trigger] s[i]),
    decreases s.len(),
{
    if s.len() > 0 {
        lemma_first_missing(s.drop_first(), others);
        if first_missing(s, others) is None {
            assert forall|i: int| 0 <= i < s.len() implies occurs(others, #[trigger] s[i]) by {
                if i > 0 {
                    assert(s[i] == s.drop_first()[i - 1]);
                }
            }
        } else if occurs(others, s[0]) {
            let j = choose|j: int| 0 <= j < s.drop_first().len() && !occurs(others, #[trigger] s.drop_first()[j]);
            assert(s[j + 1] == s.drop_first()[j]);
        }
    }
}

/// Path parameters fit a path exactly when every placeholder has a path
/// parameter and every path parameter names a placeholder.
pub proof fn law_path_params_match_placeholders(placeholders: Seq<Seq<char>>, names: Seq<Seq<char>>)
    ensures
        path_params_failure(placeholders, names) is None <==> (forall|i: int|
            0 <= i < placeholders.len() ==> occurs(names, #[trigger] placeholders[i])) && (forall|i: int|
            0 <= i < names.len() ==> occurs(placeholders, #[trigger] names[i])),
{
    lemma_first_missing(placeholders, names);
    lemma_first_missing(names, placeholders);
}

proof fn lemma_trim_leading(s: Seq<char>)
    ensures
        trim_leading_slashes(s).len() > 0 ==> trim_leading_slashes(s)[0] != '/',
    decreases s.len(),
{
    if s.len() > 0 && s[0] == '/' {
        lemma_trim_leading(s.drop_first());
    }
}

proof fn lemma_trim_trailing(s: Seq<char>)
    ensures
        trim_trailing_slashes(s).len() <= s.len(),
        trim_trailing_slashes(s) == s.take(trim_trailing_slashes(s).len() as int),
        trim_trailing_slashes(s).len() > 0 ==> trim_trailing_slashes(s).last() != '/',
    decreases s.len(),
{
    if s.len() > 0 && s.last() == '/' {
        lemma_trim_trailing(s.drop_last());
        assert(s.drop_last().take(trim_trailing_slashes(s).len() as int) =~= s.take(
            trim_trailing_slashes(s).len() as int,
        ));
    } else {
        assert(s.take(s.len() as int) =~= s);
    }
}

/// Joining a resource path and a method path never gives an empty path;
/// it starts with `/` when the resource path is empty or starts with `/`;
/// and the method path follows a single `/`.
pub proof fn law_join_paths(base: Seq<char>, method: Seq<char>)
    ensures
        join_paths_spec(base, method).len() > 0,
        (trim_trailing_slashes(base).len() == 0 || base[0] == '/') ==> join_paths_spec(base, method)[0] == '/',
        trim_leading_slashes(method).len() > 0 ==> {
            let j = join_paths_spec(base, method);
            let m = trim_leading_slashes(method);
            &&& j.len() > m.len()
            &&& j.subrange(j.len() - m.len(), j.len() as int) == m
            &&& j[j.len() - m.len() - 1] == '/'
            &&& (j.len() - m.len() - 2 >= 0 ==> j[j.len() - m.len() - 2] != '/')
        },
{
    reveal_strlit("/");
    lemma_trim_trailing(base);
    lemma_trim_leading(method);
    let b = trim_trailing_slashes(base);
    let m = trim_leading_slashes(method);
    let j = join_paths_spec(base, method);
    if b.len() > 0 && base[0] == '/' {
        assert(b[0] == base[0]);
    }
    if m.len() > 0 {
        if b.len() == 0 {
            assert(j =~= "/"@ + m);
            assert(j.subrange(j.len() - m.len(), j.len() as int) =~= m);
        } else {
            assert(j =~= b + "/"@ + m);
            assert(j.subrange(j.len() - m.len(), j.len() as int) =~= m);
            assert(j[j.len() - m.len() - 2] == b.last());
        }
    }
}

/// Repeated query values: `MultiPairs` and `ArrayPairs` send one pair per
/// value (named `name` and `name[]`), `CommaSeparated` sends exactly one
/// pair whatever the number of values.
pub proof fn law_query_param_style_pairs(style: QueryParamStyle, name: Seq<char>, values: Seq<Seq<char>>)
    ensures
        style == QueryParamStyle::CommaSeparated ==> query_params_spec(style, name, values).len() == 1,
        style == QueryParamStyle::MultiPairs ==> {
            &&& query_params_spec(style, name, values).len() == values.len()
            &&& forall|i: int| 0 <= i < values.len() ==> #[trigger] query_params_spec(style, name, values)[i] == (
                name,
                values[i],
            )
        },
        style == QueryParamStyle::ArrayPairs ==> {
            &&& query_params_spec(style, name, values).len() == values.len()
            &&& forall|i: int| 0 <= i < values.len() ==> #[trigger] query_params_spec(style, name, values)[i] == (
                name + "[]"@,
                values[i],
            )
        },
{
}

/// A default header added by the builder reads back under any spelling of
/// its name (header names are case-insensitive), replaces an earlier value
/// of that name, leaves the other headers as they were, and no name ends up
/// listed twice.
pub proof fn law_default_header_reads_back(
    headers: Seq<(String, String)>,
    name: Seq<char>,
    value: Seq<char>,
    lookup: Seq<char>,
    other: Seq<char>,
)
    requires
        header_name_canonical(lookup) == header_name_canonical(name),
    ensures
        header_lookup(with_header(headers, name, value), header_name_canonical(lookup)) == Some(value),
        other != header_name_canonical(name) ==> header_lookup(with_header(headers, name, value), other)
            == header_lookup(header_list_view(headers), other),
        names_unique(header_list_view(headers)) ==> names_unique(with_header(headers, name, value)),
{
    lemma_header_insert(header_list_view(headers), header_name_canonical(name), value, other);
}

/// Of several alternative properties, the first in list order that is set
/// (under either key style) is read, and nothing is read exactly when none
/// of them is set.
pub proof fn law_first_alternative_wins(
    mp_prefix: Seq<char>,
    env_prefix: Seq<char>,
    env: Seq<(Seq<char>, Seq<char>)>,
    properties: Seq<Seq<char>>,
)
    ensures
        first_found(mp_prefix, env_prefix, env, properties) is None <==> forall|i: int|
            0 <= i < properties.len() ==> #[trigger] source_get_spec(mp_prefix, env_prefix, env, properties[i])
                is None,
        forall|i: int|
            0 <= i < properties.len() && source_get_spec(mp_prefix, env_prefix, env, #[trigger] properties[i])
                is Some && (forall|j: int|
                0 <= j < i ==> source_get_spec(mp_prefix, env_prefix, env, properties[j]) is None) ==> first_found(
                mp_prefix,
                env_prefix,
                env,
                properties,
            ) == source_get_spec(mp_prefix, env_prefix, env, properties[i]),
    decreases properties.len(),
{
    if properties.len() > 0 {
        let rest = properties.drop_first();
        law_first_alternative_wins(mp_prefix, env_prefix, env, rest);
        assert forall|i: int| 0 <= i < rest.len() implies rest[i] == properties[i + 1] by {}
        if source_get_spec(mp_prefix, env_prefix, env, properties[0]) is None {
            assert forall|i: int|
                0 <= i < properties.len() && source_get_spec(mp_prefix, env_prefix, env, #[trigger] properties[i])
                    is Some && (forall|j: int|
                    0 <= j < i ==> source_get_spec(mp_prefix, env_prefix, env, properties[j]) is None) implies first_found(
                mp_prefix,
                env_prefix,
                env,
                properties,
            ) == source_get_spec(mp_prefix, env_prefix, env, properties[i]) by {
                assert(i > 0);
                assert(rest[i - 1] == properties[i]);
                assert forall|j: int| 0 <= j < i - 1 implies source_get_spec(mp_prefix, env_prefix, env, rest[j])
                    is None by {
                    assert(rest[j] == properties[j + 1]);
                }
            }
            if first_found(mp_prefix, env_prefix, env, properties) is None {
                assert forall|i: int| 0 <= i < properties.len() implies #[trigger] source_get_spec(
                    mp_prefix,
                    env_prefix,
                    env,
                    properties[i],
                ) is None by {
                    if i > 0 {
                        assert(rest[i - 1] == properties[i]);
                    }
                }
            } else {
                let k = choose|k: int|
                    0 <= k < rest.len() && #[trigger] source_get_spec(mp_prefix, env_prefix, env, rest[k]) is Some;
                assert(source_get_spec(mp_prefix, env_prefix, env, properties[k + 1]) is Some);
            }
        } else {
            assert forall|i: int|
                0 <= i < properties.len() && source_get_spec(mp_prefix, env_prefix, env, #[trigger] properties[i])
                    is Some && (forall|j: int|
                    0 <= j < i ==> source_get_spec(mp_prefix, env_prefix, env, properties[j]) is None) implies first_found(
                mp_prefix,
                env_prefix,
                env,
                properties,
            ) == source_get_spec(mp_prefix, env_prefix, env, properties[i]) by {
                if i > 0 {
                    assert(source_get_spec(mp_prefix, env_prefix, env, properties[0]) is None);
                }
            }
        }
    }
}

/// An environment that sets none of the properties leaves the
/// configuration exactly as it was, and loading succeeds.
pub proof fn law_env_without_settings_changes_nothing<M>(
    config_key: Seq<char>,
    env: Seq<(Seq<char>, Seq<char>)>,
    old_c: RestClientConfig<M>,
    new_c: RestClientConfig<M>,
)
    requires
        env_findings(config_key, env).url is None,
        env_findings(config_key, env).follow_redirects is None,
        env_findings(config_key, env).proxy is None,
        env_findings(config_key, env).connect_timeout is None,
        env_findings(config_key, env).read_timeout is None,
        env_findings(config_key, env).query_param_style is None,
        env_findings(config_key, env).disable_default_mapper is None,
        env_loaded(old_c, new_c, env_findings(config_key, env)),
    ensures
        env_settings_applied(env_findings(config_key, env)) == 7,
        new_c == old_c,
{
}

/// The shape of a path without its trailing slashes: a prefix, followed in
/// the path only by slashes, and not itself ending with one.
proof fn lemma_trailing_shape(s: Seq<char>)
    ensures
        trim_trailing_slashes(s).len() <= s.len(),
        trim_trailing_slashes(s) == s.take(trim_trailing_slashes(s).len() as int),
        forall|i: int| trim_trailing_slashes(s).len() <= i < s.len() ==> s[i] == '/',
        trim_trailing_slashes(s).len() > 0 ==> s[trim_trailing_slashes(s).len() - 1] != '/',
    decreases s.len(),
{
    if s.len() > 0 && s.last() == '/' {
        lemma_trailing_shape(s.drop_last());
        assert(s.drop_last().take(trim_trailing_slashes(s).len() as int) =~= s.take(
            trim_trailing_slashes(s).len() as int,
        ));
        assert forall|i: int| trim_trailing_slashes(s).len() <= i < s.len() implies s[i] == '/' by {
            if i < s.len() - 1 {
                assert(s[i] == s.drop_last()[i]);
            }
        }
    } else {
        assert(s.take(s.len() as int) =~= s);
    }
}

/// The prefix with those properties is the trimmed path.
proof fn lemma_trailing_unique(s: Seq<char>, n: int)
    requires
        0 <= n <= s.len(),
        forall|i: int| n <= i < s.len() ==> s[i] == '/',
        n == 0 || s[n - 1] != '/',
    ensures
        trim_trailing_slashes(s) == s.take(n),
{
    lemma_trailing_shape(s);
    let m = trim_trailing_slashes(s).len() as int;
    if m < n {
        assert(s[n - 1] == '/');
    }
    if n < m {
        assert(s[m - 1] == '/');
    }
}

/// The shape of a path without its leading slashes: a suffix, preceded in
/// the path only by slashes, and not itself starting with one.
proof fn lemma_leading_shape(s: Seq<char>)
    ensures
        trim_leading_slashes(s).len() <= s.len(),
        trim_leading_slashes(s) == s.skip(s.len() - trim_leading_slashes(s).len()),
        forall|i: int| 0 <= i < s.len() - trim_leading_slashes(s).len() ==> s[i] == '/',
        trim_leading_slashes(s).len() > 0 ==> s[s.len() - trim_leading_slashes(s).len()] != '/',
    decreases s.len(),
{
    if s.len() > 0 && s[0] == '/' {
        lemma_leading_shape(s.drop_first());
        let k = s.len() - trim_leading_slashes(s).len();
        assert(s.drop_first().skip(k - 1) =~= s.skip(k));
        assert forall|i: int| 0 <= i < k implies s[i] == '/' by {
            if i > 0 {
                assert(s[i] == s.drop_first()[i - 1]);
            }
        }
    } else {
        assert(s.skip(0) =~= s);
    }
}

/// The suffix with those properties is the trimmed path.
proof fn lemma_leading_unique(s: Seq<char>, k: int)
    requires
        0 <= k <= s.len(),
        forall|i: int| 0 <= i < k ==> s[i] == '/',
        k == s.len() || s[k] != '/',
    ensures
        trim_leading_slashes(s) == s.skip(k),
{
    lemma_leading_shape(s);
    let m = s.len() - trim_leading_slashes(s).len();
    if m < k {
        assert(s[m] == '/');
    }
    if k < m {
        assert(s[k] == '/');
    }
}

/// Joining paths is associative: joining a resource path, a method path
/// and a suffix gives the same path whichever pair is joined first.
pub proof fn law_join_paths_associative(a: Seq<char>, b: Seq<char>, c: Seq<char>)
    ensures
        join_paths_spec(join_paths_spec(a, b), c) == join_paths_spec(a, join_paths_spec(b, c)),
{
    reveal_strlit("/");
    let slash: Seq<char> = "/"@;
    assert(slash.len() == 1 && slash[0] == '/');
    let ta = trim_trailing_slashes(a);
    let lc = trim_leading_slashes(c);
    let lb = trim_leading_slashes(b);
    let tb = trim_trailing_slashes(b);
    lemma_trailing_shape(a);
    lemma_leading_shape(c);
    lemma_leading_shape(b);
    lemma_trailing_shape(b);
    let st = b.len() - lb.len();
    let en = tb.len() as int;
    // The trimmed parts never start or end with a slash.
    assert(ta.len() > 0 ==> ta.last() != '/');
    assert(lc.len() > 0 ==> lc[0] != '/');
    let j1 = join_paths_spec(a, b);
    let j2 = join_paths_spec(b, c);
    if lb.len() == 0 {
        // `b` is slashes only.
        assert forall|i: int| 0 <= i < b.len() implies b[i] == '/' by {}
        lemma_trailing_unique(b, 0);
        assert(tb.len() == 0);
        // Joining with `b` adds nothing.
        if ta.len() == 0 {
            assert(j1 == slash);
            lemma_trailing_unique(j1, 0);
        } else {
            assert(j1 == ta);
            lemma_trailing_unique(j1, ta.len() as int);
            assert(j1.take(ta.len() as int) =~= ta);
        }
        assert(trim_trailing_slashes(j1) == ta);
        if lc.len() == 0 {
            assert(j2 == slash);
            lemma_leading_unique(j2, 1);
            assert(j2.skip(1) =~= Seq::<char>::empty());
        } else {
            assert(j2 =~= slash + lc);
            lemma_leading_unique(j2, 1);
            assert(j2.skip(1) =~= lc);
        }
        assert(trim_leading_slashes(j2) == lc);
    } else {
        // `b` has a character other than a slash, between `st` and `en`.
        assert(b[st] != '/');
        assert(st < en) by {
            if en <= st {
                assert(b[st] == '/');
            }
        }
        let k = b.subrange(st, en);
        assert(k.len() > 0 && k[0] != '/' && k.last() != '/');
        lemma_trailing_unique(lb, en - st);
        assert(lb.take(en - st) =~= k);
        lemma_leading_unique(tb, st);
        assert(tb.skip(st) =~= k);
        if ta.len() == 0 {
            assert(j1 =~= slash + lb);
            lemma_trailing_unique(j1, 1 + en - st);
            assert(j1.take(1 + en - st) =~= slash + k);
        } else {
            assert(j1 =~= ta + slash + lb);
            lemma_trailing_unique(j1, ta.len() + 1 + en - st);
            assert(j1.take(ta.len() + 1 + en - st) =~= ta + slash + k);
        }
        if lc.len() == 0 {
            assert(j2 == tb);
            lemma_leading_unique(j2, st);
        } else {
            assert(j2 =~= tb + slash + lc);
            lemma_leading_unique(j2, st);
            assert(j2.skip(st) =~= k + slash + lc);
        }
        if ta.len() == 0 && lc.len() == 0 {
            assert(join_paths_spec(j1, c) =~= join_paths_spec(a, j2));
        } else if ta.len() == 0 {
            assert(join_paths_spec(j1, c) =~= slash + k + slash + lc);
            assert(join_paths_spec(a, j2) =~= slash + k + slash + lc);
        } else if lc.len() == 0 {
            assert(join_paths_spec(j1, c) =~= ta + slash + k);
            assert(join_paths_spec(a, j2) =~= ta + slash + k);
        } else {
            assert(join_paths_spec(j1, c) =~= ta + slash + k + slash + lc);
            assert(join_paths_spec(a, j2) =~= ta + slash + k + slash + lc);
        }
    }
}

/// A planned request sends the method's `#[produces]` media type as
/// `Accept` and its `#[consumes]` media type as `Content-Type`, falling back
/// to the resource's `produces` and `consumes` when the method has none.
pub proof fn law_plan_media_types(resource: (Seq<char>, Seq<char>, Seq<char>, Option<Seq<char>>), m: MethodSpec)
    requires
        method_plan_spec(resource, m) is Ok,
    ensures
        method_plan_spec(resource, m)->Ok_0.accept == (match first_attr(m.attrs@, "produces"@) {
            Some(a) => a.args->Literal_0@,
            None => resource.2,
        }),
        method_plan_spec(resource, m)->Ok_0.content_type == (match first_attr(m.attrs@, "consumes"@) {
            Some(a) => a.args->Literal_0@,
            None => resource.1,
        }),
{
}

/// The shell-friendly form of a config key keeps its length; ASCII
/// lower-case letters become upper-case, ASCII upper-case letters and
/// digits are kept, and every other character becomes `_`.
pub proof fn law_normalized_config_key(key: Seq<char>)
    ensures
        key.map_values(|c: char| normalize_key_char(c)).len() == key.len(),
        forall|i: int|
            0 <= i < key.len() ==> {
                let c = #[trigger] key[i];
                let r = key.map_values(|c: char| normalize_key_char(c))[i];
                &&& ('a' <= c <= 'z' ==> r as u32 == c as u32 - 32)
                &&& ('A' <= c <= 'Z' || '0' <= c <= '9' ==> r == c)
                &&& (!('a' <= c <= 'z' || 'A' <= c <= 'Z' || '0' <= c <= '9') ==> r == '_')
            },
{
}

/// The name under which a query parameter style is configured.
pub open spec fn style_config_name(style: QueryParamStyle) -> Seq<char> {
    match style {
        QueryParamStyle::MultiPairs => "MULTI_PAIRS"@,
        QueryParamStyle::CommaSeparated => "COMMA_SEPARATED"@,
        QueryParamStyle::ArrayPairs => "ARRAY_PAIRS"@,
    }
}

/// A name in lower case, `_` kept.
pub open spec fn lower_snake(name: Seq<char>) -> Seq<char> {
    name.map_values(|c: char| ascii_lower(c))
}

/// A name in lower case with `-` for `_`.
pub open spec fn lower_kebab(name: Seq<char>) -> Seq<char> {
    name.map_values(|c: char| if c == '_' { '-' } else { ascii_lower(c) })
}

/// Every query parameter style is read from its documented upper-snake-case
/// name and from that name in lower snake case and lower kebab case, and
/// from nothing else.
pub proof fn law_query_style_names(style: QueryParamStyle, value: Seq<char>)
    ensures
        query_style_spec(style_config_name(style)) == Some(style),
        query_style_spec(lower_snake(style_config_name(style))) == Some(style),
        query_style_spec(lower_kebab(style_config_name(style))) == Some(style),
        query_style_spec(value) == Some(style) ==> value == style_config_name(style) || value == lower_snake(
            style_config_name(style),
        ) || value == lower_kebab(style_config_name(style)),
{
    reveal_strlit("MULTI_PAIRS");
    reveal_strlit("multi_pairs");
    reveal_strlit("multi-pairs");
    reveal_strlit("COMMA_SEPARATED");
    reveal_strlit("comma_separated");
    reveal_strlit("comma-separated");
    reveal_strlit("ARRAY_PAIRS");
    reveal_strlit("array_pairs");
    reveal_strlit("array-pairs");
    match style {
        QueryParamStyle::MultiPairs => {
            assert(style_config_name(style) == "MULTI_PAIRS"@);
            assert(query_style_spec("MULTI_PAIRS"@) == Some(QueryParamStyle::MultiPairs));
            assert(lower_snake("MULTI_PAIRS"@) =~= "multi_pairs"@);
            assert(query_style_spec("multi_pairs"@) == Some(QueryParamStyle::MultiPairs));
            assert(lower_kebab("MULTI_PAIRS"@) =~= "multi-pairs"@);
        },
        QueryParamStyle::CommaSeparated => {
            assert(style_config_name(style) == "COMMA_SEPARATED"@);
            assert(query_style_spec("COMMA_SEPARATED"@) == Some(QueryParamStyle::CommaSeparated));
            assert(lower_snake("COMMA_SEPARATED"@) =~= "comma_separated"@);
            assert(query_style_spec("comma_separated"@) == Some(QueryParamStyle::CommaSeparated));
            assert(lower_kebab("COMMA_SEPARATED"@) =~= "comma-separated"@);
        },
        QueryParamStyle::ArrayPairs => {
            assert(style_config_name(style) == "ARRAY_PAIRS"@);
            assert("ARRAY_PAIRS"@[0] != "MULTI_PAIRS"@[0] && "ARRAY_PAIRS"@[0] != "multi_pairs"@[0]
                && "ARRAY_PAIRS"@[0] != "multi-pairs"@[0]);
            assert("array_pairs"@[0] != "MULTI_PAIRS"@[0] && "array_pairs"@[0] != "multi_pairs"@[0]
                && "array_pairs"@[0] != "multi-pairs"@[0]);
            assert("array-pairs"@[0] != "MULTI_PAIRS"@[0] && "array-pairs"@[0] != "multi_pairs"@[0]
                && "array-pairs"@[0] != "multi-pairs"@[0]);
            assert(query_style_spec("ARRAY_PAIRS"@) == Some(QueryParamStyle::ArrayPairs));
            assert(lower_snake("ARRAY_PAIRS"@) =~= "array_pairs"@);
            assert(query_style_spec("array_pairs"@) == Some(QueryParamStyle::ArrayPairs));
            assert(lower_kebab("ARRAY_PAIRS"@) =~= "array-pairs"@);
        },
    }
}

/// The total length of a list of character sequences.
pub open spec fn total_len(values: Seq<Seq<char>>) -> nat
    decreases values.len(),
{
    if values.len() == 0 {
        0
    } else {
        total_len(values.drop_last()) + values.last().len()
    }
}

/// Where the `i`-th value starts when values are written one after another
/// with `sep` between every two of them.
pub open spec fn joined_offset(values: Seq<Seq<char>>, sep: Seq<char>, i: int) -> int {
    total_len(values.take(i)) + i * sep.len()
}

/// Joining values with a separator writes every value in order with exactly
/// one separator between every two consecutive values and none elsewhere:
/// the length is the sum of the value lengths plus one separator per gap,
/// value `i` stands at its offset, and a separator follows it unless it is
/// the last.
pub proof fn law_join_values(values: Seq<Seq<char>>, sep: Seq<char>)
    requires
        values.len() > 0,
    ensures
        join_spec(values, sep).len() == total_len(values) + (values.len() - 1) * sep.len(),
        forall|i: int|
            0 <= i < values.len() ==> #[trigger] join_spec(values, sep).subrange(
                joined_offset(values, sep, i),
                joined_offset(values, sep, i) + values[i].len(),
            ) == values[i],
        forall|i: int|
            0 <= i < values.len() - 1 ==> #[trigger] join_spec(values, sep).subrange(
                joined_offset(values, sep, i) + values[i].len(),
                joined_offset(values, sep, i + 1),
            ) == sep,
    decreases values.len(),
{
    let n = values.len() as int;
    let j = join_spec(values, sep);
    let k = sep.len() as int;
    assert(values.take(0) =~= Seq::<Seq<char>>::empty());
    if n == 1 {
        assert(j == values[0]);
        assert(joined_offset(values, sep, 0) == 0);
        assert(j.subrange(0, values[0].len() as int) =~= values[0]);
    } else {
        let front = values.drop_last();
        law_join_values(front, sep);
        let jf = join_spec(front, sep);
        assert(j == jf + sep + values.last());
        assert((n - 1) * k == (n - 2) * k + k) by (nonlinear_arith);
        assert forall|i: int| 0 <= i < n implies #[trigger] values.take(i) == front.take(i)
            && joined_offset(values, sep, i) == joined_offset(front, sep, i) by {
            if i < n {
                assert(values.take(i) =~= front.take(i));
            }
        }
        assert(values.take(n - 1) =~= front);
        assert(joined_offset(values, sep, n - 1) == jf.len() + k) by {
            assert(front.take(n - 1) =~= front);
            assert((n - 1) * k == (n - 2) * k + k) by (nonlinear_arith);
        }
        assert forall|i: int| 0 <= i < n implies #[trigger] j.subrange(
            joined_offset(values, sep, i),
            joined_offset(values, sep, i) + values[i].len(),
        ) == values[i] by {
            if i < n - 1 {
                assert(values[i] == front[i]);
                let o = joined_offset(front, sep, i);
                assert(jf.subrange(o, o + front[i].len()) == front[i]);
                lemma_offset_bounds(front, sep, i);
                assert(j.subrange(o, o + front[i].len()) =~= jf.subrange(o, o + front[i].len()));
            } else {
                let o = jf.len() + k;
                assert(j.subrange(o, o + values[i].len()) =~= values.last());
            }
        }
        assert forall|i: int| 0 <= i < n - 1 implies #[trigger] j.subrange(
            joined_offset(values, sep, i) + values[i].len(),
            joined_offset(values, sep, i + 1),
        ) == sep by {
            assert(values[i] == front[i]);
            if i < n - 2 {
                let o = joined_offset(front, sep, i) + front[i].len();
                let p = joined_offset(front, sep, i + 1);
                assert(jf.subrange(o, p) == sep);
                lemma_offset_bounds(front, sep, i + 1);
                lemma_offset_bounds(front, sep, i);
                lemma_total_len_take(front, i);
                assert((i + 1) * k == i * k + k) by (nonlinear_arith);
                assert(j.subrange(o, p) =~= jf.subrange(o, p));
            } else {
                let o = joined_offset(front, sep, i) + front[i].len();
                lemma_offset_bounds(front, sep, i);
                assert(o == jf.len());
                assert(j.subrange(o, o + k) =~= sep);
            }
        }
    }
}

/// Value `i` of a joined list ends within the joined text, and the last one
/// ends exactly at its end.
proof fn lemma_offset_bounds(values: Seq<Seq<char>>, sep: Seq<char>, i: int)
    requires
        values.len() > 0,
        0 <= i < values.len(),
    ensures
        0 <= joined_offset(values, sep, i),
        joined_offset(values, sep, i) + values[i].len() <= join_spec(values, sep).len(),
        i == values.len() - 1 ==> joined_offset(values, sep, i) + values[i].len() == join_spec(
            values,
            sep,
        ).len(),
    decreases values.len(),
{
    let n = values.len() as int;
    let k = sep.len() as int;
    assert(0 <= i * k) by (nonlinear_arith)
        requires
            0 <= i,
            0 <= k,
    ;
    lemma_total_len_take(values, i);
    if n == 1 {
        assert(values.take(0) =~= Seq::<Seq<char>>::empty());
        assert(total_len(values.take(0)) == 0);
        assert(0 * k == 0);
        assert(join_spec(values, sep) == values[0]);
    } else {
        let front = values.drop_last();
        assert(join_spec(values, sep) == join_spec(front, sep) + sep + values.last());
        assert((n - 1) * k == (n - 2) * k + k) by (nonlinear_arith);
        if i < n - 1 {
            lemma_offset_bounds(front, sep, i);
            assert(values.take(i) =~= front.take(i));
        } else {
            assert(values.take(i) =~= front);
            lemma_total_len_take(front, n - 1);
            assert(front.take(n - 1) =~= front);
            lemma_join_len(front, sep);
        }
    }
}

proof fn lemma_join_len(values: Seq<Seq<char>>, sep: Seq<char>)
    requires
        values.len() > 0,
    ensures
        join_spec(values, sep).len() == total_len(values) + (values.len() - 1) * sep.len(),
    decreases values.len(),
{
    if values.len() > 1 {
        lemma_join_len(values.drop_last(), sep);
        assert(join_spec(values, sep) == join_spec(values.drop_last(), sep) + sep + values.last());
        assert(total_len(values) == total_len(values.drop_last()) + values.last().len());
        let n = values.len() as int;
        let k = sep.len() as int;
        assert((n - 1) * k == (n - 2) * k + k) by (nonlinear_arith);
    } else {
        assert(total_len(values.drop_last()) == 0);
        assert(total_len(values) == values[0].len());
    }
}

proof fn lemma_total_len_take(values: Seq<Seq<char>>, i: int)
    requires
        0 <= i <= values.len(),
    ensures
        total_len(values.take(i)) + values[i].len() <= total_len(values) || i == values.len(),
        i < values.len() ==> total_len(values.take(i + 1)) == total_len(values.take(i)) + values[i].len(),
        total_len(values.take(i)) <= total_len(values),
    decreases values.len() - i,
{
    if i < values.len() {
        assert(values.take(i + 1).drop_last() =~= values.take(i));
        lemma_total_len_take(values, i + 1);
    } else {
        assert(values.take(i) =~= values);
    }
}

/// The value of a hexadecimal digit, or -1 for another character.
pub open spec fn hex_digit_value(c: char) -> int {
    if '0' <= c <= '9' {
        c as int - 48
    } else if 'A' <= c <= 'F' {
        c as int - 55
    } else if 'a' <= c <= 'f' {
        c as int - 87
    } else {
        -1
    }
}

/// Percent-decoding: `%` followed by two hexadecimal digits stands for the
/// byte they give; any other character stands for itself.
pub open spec fn percent_decode(s: Seq<char>) -> Seq<u8>
    decreases s.len(),
{
    if s.len() == 0 {
        seq![]
    } else if s[0] == '%' && s.len() >= 3 && hex_digit_value(s[1]) >= 0 && hex_digit_value(s[2]) >= 0 {
        seq![(hex_digit_value(s[1]) * 16 + hex_digit_value(s[2])) as u8] + percent_decode(s.skip(3))
    } else {
        seq![s[0] as u8] + percent_decode(s.drop_first())
    }
}

/// The encoding of a byte sequence is that of its first byte followed by
/// that of the rest.
proof fn lemma_path_segment_front(bytes: Seq<u8>)
    requires
        bytes.len() > 0,
    ensures
        path_segment_spec(bytes) == segment_byte_spec(bytes[0]) + path_segment_spec(bytes.drop_first()),
    decreases bytes.len(),
{
    if bytes.len() == 1 {
        assert(bytes.drop_first().len() == 0);
        assert(bytes.drop_last().len() == 0);
        assert(path_segment_spec(bytes.drop_last()) =~= Seq::<char>::empty());
        assert(path_segment_spec(bytes.drop_first()) =~= Seq::<char>::empty());
        assert(path_segment_spec(bytes) =~= segment_byte_spec(bytes[0]));
    } else {
        lemma_path_segment_front(bytes.drop_last());
        assert(bytes.drop_last().drop_first() =~= bytes.drop_first().drop_last());
        assert(bytes.drop_last()[0] == bytes[0]);
        assert(bytes.drop_first().last() == bytes.last());
        assert(path_segment_spec(bytes) =~= segment_byte_spec(bytes[0]) + path_segment_spec(
            bytes.drop_first(),
        ));
    }
}

proof fn lemma_hex_digit(v: int)
    requires
        0 <= v < 16,
    ensures
        hex_digit_value(hex_upper(v)) == v,
{
}

/// A path segment's encoding decodes back to the value: every byte that is
/// written percent-encoded comes back from its two hex digits, and no byte
/// that is written as itself can be taken for the start of an escape (in
/// particular `%` is always written `%25`).
pub proof fn law_path_segment_decodes(bytes: Seq<u8>)
    ensures
        percent_decode(path_segment_spec(bytes)) == bytes,
    decreases bytes.len(),
{
    if bytes.len() > 0 {
        lemma_path_segment_front(bytes);
        law_path_segment_decodes(bytes.drop_first());
        let b = bytes[0];
        let rest = path_segment_spec(bytes.drop_first());
        let s = segment_byte_spec(b) + rest;
        if encodes_byte(b) {
            let hi = b as int / 16;
            let lo = b as int % 16;
            lemma_hex_digit(hi);
            lemma_hex_digit(lo);
            assert(s[0] == '%' && s[1] == hex_upper(hi) && s[2] == hex_upper(lo));
            assert(s.skip(3) =~= rest);
            assert((hi * 16 + lo) as u8 == b);
            assert(percent_decode(s) =~= seq![b] + bytes.drop_first());
        } else {
            assert(s[0] == b as char);
            assert(b != 0x25);
            assert((b as char) as u8 == b);
            assert(s.drop_first() =~= rest);
            assert(percent_decode(s) =~= seq![b] + bytes.drop_first());
        }
        assert(seq![b] + bytes.drop_first() =~= bytes);
    }
}

} // verus!
