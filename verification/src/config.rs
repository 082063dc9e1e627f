//! Runtime configuration of a client and how it is read from the
//! environment.

use vstd::prelude::*;

use crate::env_config::{
    config_bool_spec, duration_from_millis_spec, env_prefix_spec, first_found, global_env_prefix,
    global_mp_prefix, invalid_config, invalid_config_spec, mp_prefix_spec, parse_config_bool,
    parse_config_duration_ms, parse_u64_spec, proxy_address_to_url, proxy_url_spec, source_get_spec,
    strs_view, EnvConfigSource, EnvSnapshot,
};
use crate::error::Error;
use crate::headers::{
    find_header, header_list_view, header_lookup, header_name_canonical, header_name_valid,
    parse_header_name,
};
use crate::text::{owned, text_eq};
use crate::url_model::{url_parse_error_spec, url_parse_spec, ParsedUrl};

verus! {

/// How repeated query parameters are encoded.
#[derive(Debug, Clone, Copy, PartialEq, Eq, Structural)]
pub enum QueryParamStyle {
    /// `key=value1&key=value2`
    MultiPairs,
    /// `key=value1,value2`
    CommaSeparated,
    /// `key[]=value1&key[]=value2`
    ArrayPairs,
}

impl Default for QueryParamStyle {
    fn default() -> (s: Self)
        ensures
            s == QueryParamStyle::MultiPairs,
    {
        QueryParamStyle::MultiPairs
    }
}

/// How a query parameter style is named in configuration: upper snake case,
/// lower snake case or kebab case.
pub open spec fn query_style_spec(value: Seq<char>) -> Option<QueryParamStyle> {
    if value == "MULTI_PAIRS"@ || value == "multi_pairs"@ || value == "multi-pairs"@ {
        Some(QueryParamStyle::MultiPairs)
    } else if value == "COMMA_SEPARATED"@ || value == "comma_separated"@ || value == "comma-separated"@ {
        Some(QueryParamStyle::CommaSeparated)
    } else if value == "ARRAY_PAIRS"@ || value == "array_pairs"@ || value == "array-pairs"@ {
        Some(QueryParamStyle::ArrayPairs)
    } else {
        None
    }
}

impl QueryParamStyle {
    /// Reads a style from its configuration name.
    pub fn parse_config(value: &str) -> (r: Option<Self>)
        ensures
            r == query_style_spec(value@),
    {
        if text_eq(value, "MULTI_PAIRS") || text_eq(value, "multi_pairs") || text_eq(value, "multi-pairs") {
            Some(QueryParamStyle::MultiPairs)
        } else if text_eq(value, "COMMA_SEPARATED") || text_eq(value, "comma_separated") || text_eq(
            value,
            "comma-separated",
        ) {
            Some(QueryParamStyle::CommaSeparated)
        } else if text_eq(value, "ARRAY_PAIRS") || text_eq(value, "array_pairs") || text_eq(
            value,
            "array-pairs",
        ) {
            Some(QueryParamStyle::ArrayPairs)
        } else {
            None
        }
    }
}

/// A response exception mapper: the mapping itself (`mapper`, whose type the
/// caller chooses) and its priority. Mappers with lower priority values run
/// first.
#[derive(Debug, Clone)]
pub struct ResponseExceptionMapper<M> {
    priority: i32,
    mapper: M,
}

impl<M> ResponseExceptionMapper<M> {
    /// The mapper's priority.
    pub closed spec fn priority_of(&self) -> i32 {
        self.priority
    }

    /// The mapping.
    pub closed spec fn mapper_of(&self) -> M {
        self.mapper
    }

    /// Creates a mapper with the given priority.
    pub fn new(priority: i32, mapper: M) -> (r: Self)
        ensures
            r.priority_of() == priority,
            r.mapper_of() == mapper,
    {
        ResponseExceptionMapper { priority, mapper }
    }

    /// Returns the mapper priority. Lower values run first.
    pub fn priority(&self) -> (p: i32)
        ensures
            p == self.priority_of(),
    {
        self.priority
    }

    /// The mapping.
    pub fn mapper(&self) -> (m: &M)
        ensures
            *m == self.mapper_of(),
    {
        &self.mapper
    }
}

/// `out` lists the mappers of `inp` ordered by priority, and mappers of
/// equal priority keep their relative order: `perm[i]` is the position in
/// `inp` of `out[i]`.
pub open spec fn stable_priority_order<M>(
    out: Seq<ResponseExceptionMapper<M>>,
    inp: Seq<ResponseExceptionMapper<M>>,
    perm: Seq<int>,
) -> bool {
    &&& out.len() == inp.len()
    &&& perm.len() == inp.len()
    &&& forall|i: int| 0 <= i < perm.len() ==> 0 <= #[trigger] perm[i] < inp.len()
    &&& forall|i: int, j: int| 0 <= i < perm.len() && 0 <= j < perm.len() && i != j ==> perm[i] != perm[j]
    &&& forall|i: int| 0 <= i < out.len() ==> #[trigger] out[i] == inp[perm[i]]
    &&& forall|i: int, j: int|
        0 <= i < j < out.len() ==> out[i].priority_of() <= out[j].priority_of()
    &&& forall|i: int, j: int|
        0 <= i < j < out.len() && out[i].priority_of() == out[j].priority_of() ==> perm[i] < perm[j]
}

/// `out` is the stable sort of `inp` by priority.
pub open spec fn is_stable_priority_sort<M>(
    out: Seq<ResponseExceptionMapper<M>>,
    inp: Seq<ResponseExceptionMapper<M>>,
) -> bool {
    exists|perm: Seq<int>| stable_priority_order(out, inp, perm)
}

/// Orders mappers by priority, lowest first, keeping the registration order
/// among mappers of equal priority.
pub fn sort_by_priority<M>(mappers: Vec<ResponseExceptionMapper<M>>) -> (out: Vec<ResponseExceptionMapper<M>>)
    ensures
        is_stable_priority_sort(out@, mappers@),
{
    let ghost inp = mappers@;
    let total = mappers.len();
    let mut rest = mappers;
    let mut out: Vec<ResponseExceptionMapper<M>> = Vec::new();
    let ghost mut perm: Seq<int> = Seq::empty();
    let mut taken: usize = 0;
    proof {
        assert(inp.skip(0) =~= inp);
    }
    while rest.len() > 0
        invariant
            taken <= inp.len(),
            total == inp.len(),
            rest@ == inp.skip(taken as int),
            out@.len() == taken,
            perm.len() == taken,
            forall|i: int| 0 <= i < perm.len() ==> 0 <= #[trigger] perm[i] < taken,
            forall|i: int, j: int| 0 <= i < perm.len() && 0 <= j < perm.len() && i != j ==> perm[i] != perm[j],
            forall|i: int| 0 <= i < out@.len() ==> #[trigger] out@[i] == inp[perm[i]],
            forall|i: int, j: int|
                0 <= i < j < out@.len() ==> out@[i].priority_of() <= out@[j].priority_of(),
            forall|i: int, j: int|
                0 <= i < j < out@.len() && out@[i].priority_of() == out@[j].priority_of() ==> perm[i] < perm[j],
        decreases rest.len(),
    {
        proof {
            assert(taken < inp.len());
        }
        let m = rest.remove(0);
        proof {
            assert(inp.skip(taken as int).drop_first() =~= inp.skip(taken + 1));
        }
        let p = m.priority;
        let mut pos: usize = 0;
        while pos < out.len() && out[pos].priority <= p
            invariant
                pos <= out@.len(),
                forall|k: int| 0 <= k < pos ==> out@[k].priority_of() <= p,
            decreases out@.len() - pos,
        {
            pos = pos + 1;
        }
        let ghost old_out = out@;
        let ghost old_perm = perm;
        out.insert(pos, m);
        proof {
            perm = old_perm.insert(pos as int, taken as int);
            assert(forall|k: int| pos <= k < old_out.len() ==> old_out[k].priority_of() > p) by {
                assert forall|k: int| pos <= k < old_out.len() implies old_out[k].priority_of() > p by {
                    if pos < old_out.len() {
                        assert(old_out[pos as int].priority_of() > p);
                    }
                }
            }
            assert forall|i: int| 0 <= i < out@.len() implies #[trigger] out@[i] == inp[perm[i]] by {
                if i < pos {
                    assert(out@[i] == old_out[i]);
                } else if i > pos {
                    assert(out@[i] == old_out[i - 1]);
                }
            }
            assert forall|i: int, j: int|
                0 <= i < j < out@.len() implies out@[i].priority_of() <= out@[j].priority_of() by {
                if j < pos {
                } else if i > pos {
                    assert(out@[i] == old_out[i - 1]);
                    assert(out@[j] == old_out[j - 1]);
                } else if i == pos {
                    assert(out@[j] == old_out[j - 1]);
                } else if j == pos {
                    assert(out@[i] == old_out[i]);
                } else {
                    assert(out@[i] == old_out[i]);
                    assert(out@[j] == old_out[j - 1]);
                }
            }
            assert forall|i: int, j: int|
                0 <= i < j < out@.len() && out@[i].priority_of() == out@[j].priority_of() implies perm[i]
                < perm[j] by {
                if j < pos {
                } else if i > pos {
                    assert(out@[i] == old_out[i - 1]);
                    assert(out@[j] == old_out[j - 1]);
                } else if i == pos {
                    assert(out@[j] == old_out[j - 1]);
                } else if j == pos {
                    assert(old_perm[i] < taken);
                } else {
                    assert(out@[i] == old_out[i]);
                    assert(out@[j] == old_out[j - 1]);
                }
            }
        }
        taken = taken + 1;
    }
    proof {
        assert(stable_priority_order(out@, inp, perm));
    }
    out
}

/// Runtime configuration consumed by clients; `M` is the type of the
/// response exception mappers.
#[derive(Debug, Clone)]
pub struct RestClientConfig<M> {
    /// Configuration key used for environment-backed configuration.
    pub config_key: Option<String>,
    /// Base URL used to resolve request paths.
    pub base_url: Option<ParsedUrl>,
    /// Headers applied to every request, by canonical name.
    pub default_headers: Vec<(String, String)>,
    /// Whether the underlying client follows redirects.
    pub follow_redirects: bool,
    /// Optional HTTP proxy URL.
    pub proxy: Option<String>,
    /// Optional total request timeout.
    pub timeout: Option<std::time::Duration>,
    /// Optional timeout for reading response body chunks.
    pub read_timeout: Option<std::time::Duration>,
    /// Optional connection-establishment timeout.
    pub connect_timeout: Option<std::time::Duration>,
    /// Encoding style for repeated query parameters.
    pub query_param_style: QueryParamStyle,
    /// Custom response exception mappers for typed response methods.
    pub response_exception_mappers: Vec<ResponseExceptionMapper<M>>,
    /// Whether statuses `>= 400` are mapped to `Error::Http` by default.
    pub default_response_exception_mapper: bool,
}

/// The configuration a client starts from: nothing set, redirects not
/// followed, multi-pair query parameters and the default response mapper
/// enabled.
pub open spec fn is_default_config<M>(c: RestClientConfig<M>) -> bool {
    &&& c.config_key is None
    &&& c.base_url is None
    &&& c.default_headers@.len() == 0
    &&& !c.follow_redirects
    &&& c.proxy is None
    &&& c.timeout is None
    &&& c.read_timeout is None
    &&& c.connect_timeout is None
    &&& c.query_param_style == QueryParamStyle::MultiPairs
    &&& c.response_exception_mappers@.len() == 0
    &&& c.default_response_exception_mapper
}

impl<M> Default for RestClientConfig<M> {
    fn default() -> (c: Self)
        ensures
            is_default_config(c),
    {
        RestClientConfig {
            config_key: None,
            base_url: None,
            default_headers: Vec::new(),
            follow_redirects: false,
            proxy: None,
            timeout: None,
            read_timeout: None,
            connect_timeout: None,
            query_param_style: QueryParamStyle::MultiPairs,
            response_exception_mappers: Vec::new(),
            default_response_exception_mapper: true,
        }
    }
}

/// The view of an optional URL.
pub open spec fn opt_url_view(u: Option<ParsedUrl>) -> Option<Seq<char>> {
    match u {
        Some(u) => Some(u@),
        None => None,
    }
}

/// The view of an optional string.
pub open spec fn opt_string_view(s: Option<String>) -> Option<Seq<char>> {
    match s {
        Some(s) => Some(s@),
        None => None,
    }
}

/// The key of a setting that was found.
pub open spec fn fkey(found: Option<(Seq<char>, Seq<char>)>) -> Seq<char> {
    match found {
        Some((k, _)) => k,
        None => Seq::empty(),
    }
}

/// The value of a setting that was found.
pub open spec fn fval(found: Option<(Seq<char>, Seq<char>)>) -> Seq<char> {
    match found {
        Some((_, v)) => v,
        None => Seq::empty(),
    }
}

/// The properties read from the environment for a config key, and the
/// global setting of the default response mapper. Each is the key that was
/// found and its value.
pub struct EnvFindings {
    pub url: Option<(Seq<char>, Seq<char>)>,
    pub follow_redirects: Option<(Seq<char>, Seq<char>)>,
    pub proxy: Option<(Seq<char>, Seq<char>)>,
    pub connect_timeout: Option<(Seq<char>, Seq<char>)>,
    pub read_timeout: Option<(Seq<char>, Seq<char>)>,
    pub query_param_style: Option<(Seq<char>, Seq<char>)>,
    pub disable_default_mapper: Option<(Seq<char>, Seq<char>)>,
}

/// What the environment holds for a config key. `uri` wins over `url`,
/// `proxyAddress` over `proxy`, and `disable.default.mapper` over
/// `disable.default.response.exception.mapper`.
pub open spec fn env_findings(config_key: Seq<char>, env: Seq<(Seq<char>, Seq<char>)>) -> EnvFindings {
    let mp = mp_prefix_spec(config_key);
    let ep = env_prefix_spec(config_key);
    EnvFindings {
        url: first_found(mp, ep, env, seq!["uri"@, "url"@]),
        follow_redirects: source_get_spec(mp, ep, env, "followRedirects"@),
        proxy: first_found(mp, ep, env, seq!["proxyAddress"@, "proxy"@]),
        connect_timeout: source_get_spec(mp, ep, env, "connectTimeout"@),
        read_timeout: source_get_spec(mp, ep, env, "readTimeout"@),
        query_param_style: source_get_spec(mp, ep, env, "queryParamStyle"@),
        disable_default_mapper: first_found(
            global_mp_prefix(),
            global_env_prefix(),
            env,
            seq!["disable.default.mapper"@, "disable.default.response.exception.mapper"@],
        ),
    }
}

/// How many of the settings, in the order they are applied (URL, redirects,
/// proxy, connect timeout, read timeout, query style, default mapper), are
/// applied before one of them fails; 7 when none fails.
pub open spec fn env_settings_applied(f: EnvFindings) -> int {
    if f.url matches Some((_, v)) && url_parse_spec(v) is None {
        0
    } else if f.follow_redirects matches Some((_, v)) && config_bool_spec(v) is None {
        1
    } else if f.connect_timeout matches Some((_, v)) && parse_u64_spec(v) is Err {
        3
    } else if f.read_timeout matches Some((_, v)) && parse_u64_spec(v) is Err {
        4
    } else if f.query_param_style matches Some((_, v)) && query_style_spec(v) is None {
        5
    } else if f.disable_default_mapper matches Some((_, v)) && config_bool_spec(v) is None {
        6
    } else {
        7
    }
}

/// The error for the setting that failed.
pub open spec fn env_failure_spec(f: EnvFindings, e: Error) -> bool {
    let n = env_settings_applied(f);
    if n == 0 {
        invalid_config_spec(fkey(f.url), fval(f.url), url_parse_error_spec(fval(f.url)), e)
    } else if n == 1 {
        invalid_config_spec(fkey(f.follow_redirects), fval(f.follow_redirects), "expected true or false"@, e)
    } else if n == 3 {
        invalid_config_spec(
            fkey(f.connect_timeout),
            fval(f.connect_timeout),
            parse_u64_spec(fval(f.connect_timeout))->Err_0.text(),
            e,
        )
    } else if n == 4 {
        invalid_config_spec(
            fkey(f.read_timeout),
            fval(f.read_timeout),
            parse_u64_spec(fval(f.read_timeout))->Err_0.text(),
            e,
        )
    } else if n == 5 {
        invalid_config_spec(
            fkey(f.query_param_style),
            fval(f.query_param_style),
            "expected MULTI_PAIRS, COMMA_SEPARATED, or ARRAY_PAIRS"@,
            e,
        )
    } else {
        invalid_config_spec(
            fkey(f.disable_default_mapper),
            fval(f.disable_default_mapper),
            "expected true or false"@,
            e,
        )
    }
}

/// What loading environment settings leaves in the configuration: each
/// setting found and applied before any failure replaces the field it
/// configures; every other field keeps its value.
pub open spec fn env_loaded<M>(
    old_c: RestClientConfig<M>,
    new_c: RestClientConfig<M>,
    f: EnvFindings,
) -> bool {
    let n = env_settings_applied(f);
    &&& new_c.config_key == old_c.config_key
    &&& new_c.default_headers == old_c.default_headers
    &&& new_c.timeout == old_c.timeout
    &&& new_c.response_exception_mappers == old_c.response_exception_mappers
    &&& (if n > 0 && f.url is Some {
        opt_url_view(new_c.base_url) == url_parse_spec(fval(f.url))
    } else {
        new_c.base_url == old_c.base_url
    })
    &&& new_c.follow_redirects == (if n > 1 && f.follow_redirects is Some {
        config_bool_spec(fval(f.follow_redirects))->0
    } else {
        old_c.follow_redirects
    })
    &&& (if n > 2 && f.proxy is Some {
        opt_string_view(new_c.proxy) == Some(proxy_url_spec(fval(f.proxy)))
    } else {
        new_c.proxy == old_c.proxy
    })
    &&& new_c.connect_timeout == (if n > 3 && f.connect_timeout is Some {
        Some(duration_from_millis_spec(parse_u64_spec(fval(f.connect_timeout))->Ok_0 as u64))
    } else {
        old_c.connect_timeout
    })
    &&& new_c.read_timeout == (if n > 4 && f.read_timeout is Some {
        Some(duration_from_millis_spec(parse_u64_spec(fval(f.read_timeout))->Ok_0 as u64))
    } else {
        old_c.read_timeout
    })
    &&& new_c.query_param_style == (if n > 5 && f.query_param_style is Some {
        query_style_spec(fval(f.query_param_style))->0
    } else {
        old_c.query_param_style
    })
    &&& new_c.default_response_exception_mapper == (if n > 6 && f.disable_default_mapper is Some {
        !config_bool_spec(fval(f.disable_default_mapper))->0
    } else {
        old_c.default_response_exception_mapper
    })
}

impl<M> RestClientConfig<M> {
    /// The default header value for a name, looked up by canonical name
    /// (header names are case-insensitive); `None` for an invalid name.
    pub fn default_header(&self, name: &str) -> (r: Option<String>)
        ensures
            !header_name_valid(name@) ==> r is None,
            header_name_valid(name@) ==> {
                let found = header_lookup(header_list_view(self.default_headers@), header_name_canonical(name@));
                &&& (r is Some <==> found is Some)
                &&& (r matches Some(v) ==> found == Some(v@))
            },
    {
        match parse_header_name(name) {
            None => None,
            Some(canonical) => find_header(&self.default_headers, canonical.as_str()),
        }
    }

    /// Applies environment-backed configuration for this config's key; without
    /// a key nothing changes.
    pub fn load_env(&mut self, env: &EnvSnapshot) -> (r: Result<(), Error>)
        ensures
            old(self).config_key is None ==> r is Ok && *final(self) == *old(self),
            old(self).config_key matches Some(key) ==> {
                let f = env_findings(key@, env@);
                &&& env_loaded(*old(self), *final(self), f)
                &&& (r is Ok <==> env_settings_applied(f) == 7)
                &&& (r matches Err(e) ==> env_failure_spec(f, e))
            },
    {
        match &self.config_key {
            None => Ok(()),
            Some(key) => {
                let key = key.clone();
                self.load_env_for_key(key.as_str(), env)
            },
        }
    }

    /// Applies environment-backed configuration for the supplied key.
    ///
    /// Settings are applied in order (URL, redirects, proxy, connect
    /// timeout, read timeout, query style, default mapper); the first value
    /// that cannot be parsed stops loading with `Error::InvalidConfigValue`.
    #[verifier::rlimit(100)]
    pub fn load_env_for_key(&mut self, config_key: &str, env: &EnvSnapshot) -> (r: Result<(), Error>)
        ensures
            env_loaded(*old(self), *final(self), env_findings(config_key@, env@)),
            r is Ok <==> env_settings_applied(env_findings(config_key@, env@)) == 7,
            r matches Err(e) ==> env_failure_spec(env_findings(config_key@, env@), e),
    {
        let ghost f = env_findings(config_key@, env@);
        let source = EnvConfigSource::new(config_key);
        let ghost mp = mp_prefix_spec(config_key@);
        let ghost ep = env_prefix_spec(config_key@);
        proof {
            reveal_with_fuel(first_found, 3);
        }

        let url_names: [&str; 2] = ["uri", "url"];
        proof {
            assert(strs_view(url_names@) =~= seq!["uri"@, "url"@]);
        }
        if let Some((key, value)) = source.get_any(env, url_names.as_slice()) {
            match ParsedUrl::parse(value.as_str()) {
                Ok(url) => {
                    self.base_url = Some(url);
                },
                Err(source_error) => {
                    let message = owned(source_error.text());
                    let e = invalid_config(key.as_str(), value.as_str(), message.as_str());
                    proof {
                        assert(f.url == Some((key@, value@)));
                        assert(url_parse_spec(value@) is None);
                        assert(env_settings_applied(f) == 0);
                        assert(invalid_config_spec(fkey(f.url), fval(f.url), message@, e));
                    }
                    return Err(e);
                },
            }
        }

        if let Some((key, value)) = source.get(env, "followRedirects") {
            match parse_config_bool(key.as_str(), value.as_str()) {
                Ok(b) => {
                    self.follow_redirects = b;
                },
                Err(e) => {
                    return Err(e);
                },
            }
        }

        let proxy_names: [&str; 2] = ["proxyAddress", "proxy"];
        proof {
            assert(strs_view(proxy_names@) =~= seq!["proxyAddress"@, "proxy"@]);
        }
        if let Some((_, value)) = source.get_any(env, proxy_names.as_slice()) {
            self.proxy = Some(proxy_address_to_url(value.as_str()));
        }

        if let Some((key, value)) = source.get(env, "connectTimeout") {
            match parse_config_duration_ms(key.as_str(), value.as_str()) {
                Ok(d) => {
                    self.connect_timeout = Some(d);
                },
                Err(e) => {
                    return Err(e);
                },
            }
        }

        if let Some((key, value)) = source.get(env, "readTimeout") {
            match parse_config_duration_ms(key.as_str(), value.as_str()) {
                Ok(d) => {
                    self.read_timeout = Some(d);
                },
                Err(e) => {
                    return Err(e);
                },
            }
        }

        if let Some((key, value)) = source.get(env, "queryParamStyle") {
            match QueryParamStyle::parse_config(value.as_str()) {
                Some(style) => {
                    self.query_param_style = style;
                },
                None => {
                    return Err(
                        invalid_config(
                            key.as_str(),
                            value.as_str(),
                            "expected MULTI_PAIRS, COMMA_SEPARATED, or ARRAY_PAIRS",
                        ),
                    );
                },
            }
        }

        let mapper_names: [&str; 2] = ["disable.default.mapper", "disable.default.response.exception.mapper"];
        proof {
            assert(strs_view(mapper_names@) =~= seq![
                "disable.default.mapper"@,
                "disable.default.response.exception.mapper"@,
            ]);
        }
        if let Some((key, value)) = source.get_global_any(env, mapper_names.as_slice()) {
            match parse_config_bool(key.as_str(), value.as_str()) {
                Ok(disabled) => {
                    self.default_response_exception_mapper = !disabled;
                },
                Err(e) => {
                    return Err(e);
                },
            }
        }

        Ok(())
    }
}

} // verus!
