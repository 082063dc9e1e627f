//! The runtime client: validated configuration, request URLs, query
//! parameters and the default mapping of error statuses.

use vstd::prelude::*;

use crate::config::{
    is_stable_priority_sort, opt_string_view, opt_url_view, sort_by_priority, QueryParamStyle, ResponseExceptionMapper,
    RestClientConfig,
};
use crate::error::Error;
use crate::headers::header_list_view;
use crate::text::{chars_of, owned, push_char, push_str, string_from_chars};
use crate::url_model::{
    pairs_view, url_extend_query_spec, url_join_error_spec, url_join_spec, url_path_spec, url_set_path_spec, ParsedUrl,
};

verus! {

#[verifier::external_type_specification]
#[verifier::external_body]
pub struct ExProxy(reqwest::Proxy);

#[verifier::external_type_specification]
#[verifier::external_body]
pub struct ExMethod(http::Method);

/// What `reqwest::Proxy::all` reports for a proxy URL: `None` when it
/// accepts the URL, otherwise the text of its error.
pub uninterp spec fn proxy_error_spec(url: Seq<char>) -> Option<Seq<char>>;

/// Creates a proxy for all traffic (`reqwest::Proxy::all`); a rejected URL
/// gives the text of reqwest's error.
#[verifier::external_body]
fn proxy_all(url: &str) -> (r: Result<reqwest::Proxy, String>)
    ensures
        r is Ok <==> proxy_error_spec(url@) is None,
        r matches Err(m) ==> proxy_error_spec(url@) == Some(m@),
{
    match reqwest::Proxy::all(url) {
        Ok(proxy) => Ok(proxy),
        Err(e) => Err(e.to_string()),
    }
}

/// The base URL with a trailing slash added to its path when the path does
/// not already end with one, so that resource paths join below it.
pub open spec fn normalized_base_spec(base: Seq<char>) -> Seq<char> {
    let path = url_path_spec(base);
    if path.len() > 0 && path.last() == '/' {
        base
    } else {
        url_set_path_spec(base, path.push('/'))
    }
}

/// A path without its leading slashes.
pub open spec fn trim_leading_slashes(path: Seq<char>) -> Seq<char>
    decreases path.len(),
{
    if path.len() > 0 && path[0] == '/' {
        trim_leading_slashes(path.drop_first())
    } else {
        path
    }
}

/// Removes the leading slashes of a path.
pub fn trim_start_slashes(path: &str) -> (r: String)
    ensures
        r@ == trim_leading_slashes(path@),
{
    let cs = chars_of(path);
    let mut start: usize = 0;
    proof {
        assert(cs@.skip(0) =~= cs@);
    }
    while start < cs.len() && cs[start] == '/'
        invariant
            cs@ == path@,
            start <= cs.len(),
            trim_leading_slashes(path@) == trim_leading_slashes(cs@.skip(start as int)),
        decreases cs.len() - start,
    {
        proof {
            assert(cs@.skip(start as int).drop_first() =~= cs@.skip(start + 1));
        }
        start = start + 1;
    }
    let mut out: Vec<char> = Vec::new();
    let mut i: usize = start;
    while i < cs.len()
        invariant
            start <= i <= cs.len(),
            out@ == cs@.subrange(start as int, i as int),
        decreases cs.len() - i,
    {
        out.push(cs[i]);
        i = i + 1;
        proof {
            assert(out@ =~= cs@.subrange(start as int, i as int));
        }
    }
    proof {
        assert(out@ =~= cs@.skip(start as int));
    }
    string_from_chars(&out)
}

/// Copies a list of string pairs.
pub fn clone_pairs(pairs: &Vec<(String, String)>) -> (r: Vec<(String, String)>)
    ensures
        pairs_view(r@) == pairs_view(pairs@),
        header_list_view(r@) == header_list_view(pairs@),
{
    let mut out: Vec<(String, String)> = Vec::new();
    let mut i: usize = 0;
    while i < pairs.len()
        invariant
            i <= pairs.len(),
            pairs_view(out@) == pairs_view(pairs@).take(i as int),
        decreases pairs.len() - i,
    {
        let a = pairs[i].0.clone();
        let b = pairs[i].1.clone();
        let ghost before = out@;
        out.push((a, b));
        proof {
            assert(pairs_view(out@) =~= pairs_view(before).push((a@, b@)));
            assert(pairs_view(pairs@).take(i + 1) =~= pairs_view(pairs@).take(i as int).push(
                pairs_view(pairs@)[i as int],
            ));
        }
        i = i + 1;
    }
    proof {
        assert(pairs_view(pairs@).take(pairs.len() as int) =~= pairs_view(pairs@));
        assert(header_list_view(out@) =~= pairs_view(out@));
        assert(header_list_view(pairs@) =~= pairs_view(pairs@));
    }
    out
}

/// Whether a string ends with `/`.
fn ends_with_slash(s: &String) -> (r: bool)
    ensures
        r == (s@.len() > 0 && s@.last() == '/'),
{
    let cs = chars_of(s.as_str());
    cs.len() > 0 && cs[cs.len() - 1] == '/'
}

/// Runtime client: the validated configuration that requests are made
/// from. `M` is the type of the response exception mappers.
#[derive(Debug, Clone)]
pub struct RestClient<M> {
    base_url: ParsedUrl,
    default_headers: Vec<(String, String)>,
    follow_redirects: bool,
    proxy: Option<reqwest::Proxy>,
    proxy_url: Option<String>,
    timeout: Option<std::time::Duration>,
    read_timeout: Option<std::time::Duration>,
    connect_timeout: Option<std::time::Duration>,
    query_param_style: QueryParamStyle,
    response_exception_mappers: Vec<ResponseExceptionMapper<M>>,
    default_response_exception_mapper: bool,
}

/// The proxy setting of a configuration is accepted (or absent).
pub open spec fn proxy_accepted(proxy: Option<String>) -> bool {
    proxy matches Some(p) ==> proxy_error_spec(p@) is None
}

impl<M> RestClient<M> {
    /// The base URL that request paths are joined to.
    pub closed spec fn base_url_spec(&self) -> Seq<char> {
        self.base_url@
    }

    /// The default headers.
    pub closed spec fn default_headers_spec(&self) -> Seq<(Seq<char>, Seq<char>)> {
        header_list_view(self.default_headers@)
    }

    /// Whether redirects are followed.
    pub closed spec fn follow_redirects_spec(&self) -> bool {
        self.follow_redirects
    }

    /// Whether a proxy is configured.
    pub closed spec fn has_proxy(&self) -> bool {
        self.proxy is Some
    }

    /// The URL that the proxy was created from, if one is configured.
    pub closed spec fn proxy_url_spec(&self) -> Option<Seq<char>> {
        opt_string_view(self.proxy_url)
    }

    /// The total request timeout.
    pub closed spec fn timeout_spec(&self) -> Option<std::time::Duration> {
        self.timeout
    }

    /// The read timeout.
    pub closed spec fn read_timeout_spec(&self) -> Option<std::time::Duration> {
        self.read_timeout
    }

    /// The connect timeout.
    pub closed spec fn connect_timeout_spec(&self) -> Option<std::time::Duration> {
        self.connect_timeout
    }

    /// The query parameter style.
    pub closed spec fn query_param_style_spec(&self) -> QueryParamStyle {
        self.query_param_style
    }

    /// The response exception mappers, in the order they run.
    pub closed spec fn mappers_spec(&self) -> Seq<ResponseExceptionMapper<M>> {
        self.response_exception_mappers@
    }

    /// Whether statuses `>= 400` are mapped by default.
    pub closed spec fn default_mapper_spec(&self) -> bool {
        self.default_response_exception_mapper
    }

    /// Creates a runtime client from configuration.
    ///
    /// Fails with `Error::MissingBaseUrl` without a base URL and with
    /// `Error::InvalidConfigValue` (key `proxyAddress`) for a proxy that
    /// reqwest rejects. The base URL's path gets a trailing slash, and the
    /// response exception mappers are ordered by priority, lowest first, in
    /// registration order among equal priorities.
    pub fn from_config(config: RestClientConfig<M>) -> (r: Result<Self, Error>)
        ensures
            config.base_url is None ==> r matches Err(Error::MissingBaseUrl),
            config.base_url is Some && !proxy_accepted(config.proxy) ==> (r matches Err(
                Error::InvalidConfigValue { key, value, message },
            ) && key@ == "proxyAddress"@ && value@ == config.proxy->0@ && proxy_error_spec(value@) == Some(
                message@,
            )),
            r is Ok <==> config.base_url is Some && proxy_accepted(config.proxy),
            r matches Ok(c) ==> {
                &&& c.base_url_spec() == normalized_base_spec(config.base_url->0@)
                &&& c.default_headers_spec() == header_list_view(config.default_headers@)
                &&& c.follow_redirects_spec() == config.follow_redirects
                &&& c.has_proxy() == config.proxy is Some
                &&& c.proxy_url_spec() == opt_string_view(config.proxy)
                &&& c.timeout_spec() == config.timeout
                &&& c.read_timeout_spec() == config.read_timeout
                &&& c.connect_timeout_spec() == config.connect_timeout
                &&& c.query_param_style_spec() == config.query_param_style
                &&& is_stable_priority_sort(c.mappers_spec(), config.response_exception_mappers@)
                &&& c.default_mapper_spec() == config.default_response_exception_mapper
            },
    {
        let mut base_url = match config.base_url {
            Some(url) => url,
            None => {
                return Err(Error::MissingBaseUrl);
            },
        };
        let path = base_url.path();
        if !ends_with_slash(&path) {
            let mut next_path = path;
            push_char(&mut next_path, '/');
            base_url.set_path(next_path.as_str());
        }
        let proxy_url = config.proxy;
        let proxy = match &proxy_url {
            Some(proxy_url) => match proxy_all(proxy_url.as_str()) {
                Ok(proxy) => Some(proxy),
                Err(message) => {
                    return Err(
                        Error::InvalidConfigValue {
                            key: owned("proxyAddress"),
                            value: proxy_url.clone(),
                            message,
                        },
                    );
                },
            },
            None => None,
        };
        let response_exception_mappers = sort_by_priority(config.response_exception_mappers);
        Ok(RestClient {
            base_url,
            default_headers: config.default_headers,
            follow_redirects: config.follow_redirects,
            proxy,
            proxy_url,
            timeout: config.timeout,
            read_timeout: config.read_timeout,
            connect_timeout: config.connect_timeout,
            query_param_style: config.query_param_style,
            response_exception_mappers,
            default_response_exception_mapper: config.default_response_exception_mapper,
        })
    }

    /// The normalized base URL.
    pub fn base_url(&self) -> (u: &ParsedUrl)
        ensures
            u@ == self.base_url_spec(),
    {
        &self.base_url
    }

    /// The default headers, by canonical name.
    pub fn default_headers(&self) -> (h: &Vec<(String, String)>)
        ensures
            header_list_view(h@) == self.default_headers_spec(),
    {
        &self.default_headers
    }

    /// Whether redirects are followed.
    pub fn follow_redirects(&self) -> (b: bool)
        ensures
            b == self.follow_redirects_spec(),
    {
        self.follow_redirects
    }

    /// The proxy for all traffic, if one is configured.
    pub fn proxy(&self) -> (p: &Option<reqwest::Proxy>)
        ensures
            p is Some == self.has_proxy(),
    {
        &self.proxy
    }

    /// The URL that the proxy was created from, if one is configured.
    pub fn proxy_url(&self) -> (u: &Option<String>)
        ensures
            opt_string_view(*u) == self.proxy_url_spec(),
    {
        &self.proxy_url
    }

    /// The total request timeout.
    pub fn timeout(&self) -> (t: Option<std::time::Duration>)
        ensures
            t == self.timeout_spec(),
    {
        self.timeout
    }

    /// The read timeout.
    pub fn read_timeout(&self) -> (t: Option<std::time::Duration>)
        ensures
            t == self.read_timeout_spec(),
    {
        self.read_timeout
    }

    /// The connect timeout.
    pub fn connect_timeout(&self) -> (t: Option<std::time::Duration>)
        ensures
            t == self.connect_timeout_spec(),
    {
        self.connect_timeout
    }

    /// The response exception mappers, in the order they run.
    pub fn response_exception_mappers(&self) -> (m: &Vec<ResponseExceptionMapper<M>>)
        ensures
            m@ == self.mappers_spec(),
    {
        &self.response_exception_mappers
    }

    /// Starts a request for the given HTTP method and resource path. The
    /// path, without its leading slashes, is joined to the base URL; a
    /// path that cannot be joined gives `Error::InvalidRequestUrl`.
    pub fn request(&self, method: http::Method, path: &str) -> (r: Result<RequestBuilder, Error>)
        ensures
            r is Ok <==> url_join_spec(self.base_url_spec(), trim_leading_slashes(path@)) is Some,
            r matches Ok(b) ==> {
                &&& Some(b.url_spec()) == url_join_spec(self.base_url_spec(), trim_leading_slashes(path@))
                &&& b.method_spec() == method
                &&& b.default_headers_spec() == self.default_headers_spec()
                &&& b.query_param_style_spec() == self.query_param_style_spec()
                &&& b.query_params_spec() == Seq::<(Seq<char>, Seq<char>)>::empty()
                &&& b.default_mapper_spec() == self.default_mapper_spec()
            },
            r matches Err(e) ==> (e matches Error::InvalidRequestUrl { path: p, source } && p@ == path@
                && source@ == url_join_error_spec(self.base_url_spec(), trim_leading_slashes(path@))),
    {
        let trimmed = trim_start_slashes(path);
        match self.base_url.join(trimmed.as_str()) {
            Ok(url) => Ok(RequestBuilder {
                method,
                url,
                default_headers: clone_pairs(&self.default_headers),
                query_param_style: self.query_param_style,
                query_params: Vec::new(),
                default_response_exception_mapper: self.default_response_exception_mapper,
            }),
            Err(source) => Err(Error::InvalidRequestUrl { path: owned(path), source }),
        }
    }
}

/// A request being prepared: its method, URL, default headers and query
/// parameters.
#[derive(Debug)]
pub struct RequestBuilder {
    method: http::Method,
    url: ParsedUrl,
    default_headers: Vec<(String, String)>,
    query_param_style: QueryParamStyle,
    query_params: Vec<(String, String)>,
    default_response_exception_mapper: bool,
}

/// The values joined with a separator (`a,b,c`; nothing for no values).
pub open spec fn join_spec(values: Seq<Seq<char>>, sep: Seq<char>) -> Seq<char>
    decreases values.len(),
{
    if values.len() == 0 {
        seq![]
    } else if values.len() == 1 {
        values[0]
    } else {
        join_spec(values.drop_last(), sep) + sep + values.last()
    }
}

/// The query pairs for a repeated parameter in a given style:
/// `MultiPairs` gives `name=v` for each value, `CommaSeparated` gives one
/// `name=v1,v2`, `ArrayPairs` gives `name[]=v` for each value.
pub open spec fn query_params_spec(
    style: QueryParamStyle,
    name: Seq<char>,
    values: Seq<Seq<char>>,
) -> Seq<(Seq<char>, Seq<char>)> {
    match style {
        QueryParamStyle::MultiPairs => values.map_values(|v: Seq<char>| (name, v)),
        QueryParamStyle::CommaSeparated => seq![(name, join_spec(values, ","@))],
        QueryParamStyle::ArrayPairs => values.map_values(|v: Seq<char>| (name + "[]"@, v)),
    }
}

/// The character sequences of a list of strings.
pub open spec fn strings_view(s: Seq<String>) -> Seq<Seq<char>> {
    s.map_values(|v: String| v@)
}

/// The query pairs for a list of entries, each a name with its values.
pub open spec fn query_map_spec(
    style: QueryParamStyle,
    entries: Seq<(Seq<char>, Seq<Seq<char>>)>,
) -> Seq<(Seq<char>, Seq<char>)>
    decreases entries.len(),
{
    if entries.len() == 0 {
        seq![]
    } else {
        query_map_spec(style, entries.drop_last()) + query_params_spec(
            style,
            entries.last().0,
            entries.last().1,
        )
    }
}

/// The character sequences of query map entries.
pub open spec fn entries_view(entries: Seq<(String, Vec<String>)>) -> Seq<(Seq<char>, Seq<Seq<char>>)> {
    entries.map_values(|e: (String, Vec<String>)| (e.0@, strings_view(e.1@)))
}

/// Joins values with a separator.
pub fn join_values(values: &Vec<String>, sep: &str) -> (r: String)
    ensures
        r@ == join_spec(strings_view(values@), sep@),
{
    let ghost vs = strings_view(values@);
    let mut out = String::new();
    let mut i: usize = 0;
    while i < values.len()
        invariant
            i <= values.len(),
            vs == strings_view(values@),
            out@ == join_spec(vs.take(i as int), sep@),
        decreases values.len() - i,
    {
        if i > 0 {
            push_str(&mut out, sep);
        }
        push_str(&mut out, values[i].as_str());
        proof {
            assert(vs.take(i + 1).drop_last() =~= vs.take(i as int));
            if i == 0 {
                assert(vs.take(0) =~= Seq::<Seq<char>>::empty());
                assert(out@ =~= vs[0]);
            }
        }
        i = i + 1;
    }
    proof {
        assert(vs.take(values.len() as int) =~= vs);
    }
    out
}

impl RequestBuilder {
    /// The request URL, before query parameters are added.
    pub closed spec fn url_spec(&self) -> Seq<char> {
        self.url@
    }

    /// The request method.
    pub closed spec fn method_spec(&self) -> http::Method {
        self.method
    }

    /// The default headers of the client.
    pub closed spec fn default_headers_spec(&self) -> Seq<(Seq<char>, Seq<char>)> {
        header_list_view(self.default_headers@)
    }

    /// The query parameter style.
    pub closed spec fn query_param_style_spec(&self) -> QueryParamStyle {
        self.query_param_style
    }

    /// The query parameters added so far, in order.
    pub closed spec fn query_params_spec(&self) -> Seq<(Seq<char>, Seq<char>)> {
        pairs_view(self.query_params@)
    }

    /// Whether statuses `>= 400` are mapped by default.
    pub closed spec fn default_mapper_spec(&self) -> bool {
        self.default_response_exception_mapper
    }

    /// The request method.
    pub fn method(&self) -> (m: &http::Method)
        ensures
            *m == self.method_spec(),
    {
        &self.method
    }

    /// The default headers of the client.
    pub fn default_headers(&self) -> (h: &Vec<(String, String)>)
        ensures
            header_list_view(h@) == self.default_headers_spec(),
    {
        &self.default_headers
    }

    /// The query parameters added so far.
    pub fn query_params_added(&self) -> (q: &Vec<(String, String)>)
        ensures
            pairs_view(q@) == self.query_params_spec(),
    {
        &self.query_params
    }

    /// Whether statuses `>= 400` are mapped by default.
    pub fn default_response_exception_mapper(&self) -> (b: bool)
        ensures
            b == self.default_mapper_spec(),
    {
        self.default_response_exception_mapper
    }

    /// Adds a query parameter.
    pub fn query_param(self, name: &str, value: &str) -> (b: Self)
        ensures
            b.query_params_spec() == self.query_params_spec().push((name@, value@)),
            b.url_spec() == self.url_spec(),
            b.method_spec() == self.method_spec(),
            b.default_headers_spec() == self.default_headers_spec(),
            b.query_param_style_spec() == self.query_param_style_spec(),
            b.default_mapper_spec() == self.default_mapper_spec(),
    {
        let mut b = self;
        b.query_params.push((owned(name), owned(value)));
        proof {
            assert(pairs_view(b.query_params@) =~= self.query_params_spec().push((name@, value@)));
        }
        b
    }

    /// Adds repeated query parameter values according to the configured
    /// style.
    pub fn query_params(self, name: &str, values: Vec<String>) -> (b: Self)
        ensures
            b.query_params_spec() == self.query_params_spec() + query_params_spec(
                self.query_param_style_spec(),
                name@,
                strings_view(values@),
            ),
            b.url_spec() == self.url_spec(),
            b.method_spec() == self.method_spec(),
            b.default_headers_spec() == self.default_headers_spec(),
            b.query_param_style_spec() == self.query_param_style_spec(),
            b.default_mapper_spec() == self.default_mapper_spec(),
    {
        let mut b = self;
        let ghost start = pairs_view(b.query_params@);
        let ghost vs = strings_view(values@);
        match b.query_param_style {
            QueryParamStyle::CommaSeparated => {
                let joined = join_values(&values, ",");
                b.query_params.push((owned(name), joined));
                proof {
                    assert(pairs_view(b.query_params@) =~= start + seq![(name@, join_spec(vs, ","@))]);
                }
            },
            QueryParamStyle::MultiPairs => {
                let mut i: usize = 0;
                while i < values.len()
                    invariant
                        i <= values.len(),
                        vs == strings_view(values@),
                        pairs_view(b.query_params@) == start + vs.take(i as int).map_values(
                            |v: Seq<char>| (name@, v),
                        ),
                        b.url@ == self.url_spec(),
                        b.method == self.method_spec(),
                        header_list_view(b.default_headers@) == self.default_headers_spec(),
                        b.query_param_style == self.query_param_style_spec(),
                        b.default_response_exception_mapper == self.default_mapper_spec(),
                    decreases values.len() - i,
                {
                    let ghost before = b.query_params@;
                    let v = values[i].clone();
                    b.query_params.push((owned(name), v));
                    proof {
                        assert(pairs_view(b.query_params@) =~= pairs_view(before).push((name@, vs[i as int])));
                        assert(vs.take(i + 1).map_values(|v: Seq<char>| (name@, v)) =~= vs.take(
                            i as int,
                        ).map_values(|v: Seq<char>| (name@, v)).push((name@, vs[i as int])));
                        assert(pairs_view(b.query_params@) =~= start + vs.take(i + 1).map_values(
                            |v: Seq<char>| (name@, v),
                        ));
                    }
                    i = i + 1;
                }
                proof {
                    assert(vs.take(values.len() as int) =~= vs);
                }
            },
            QueryParamStyle::ArrayPairs => {
                let mut array_name = owned(name);
                push_str(&mut array_name, "[]");
                let mut i: usize = 0;
                while i < values.len()
                    invariant
                        i <= values.len(),
                        vs == strings_view(values@),
                        array_name@ == name@ + "[]"@,
                        pairs_view(b.query_params@) == start + vs.take(i as int).map_values(
                            |v: Seq<char>| (name@ + "[]"@, v),
                        ),
                        b.url@ == self.url_spec(),
                        b.method == self.method_spec(),
                        header_list_view(b.default_headers@) == self.default_headers_spec(),
                        b.query_param_style == self.query_param_style_spec(),
                        b.default_response_exception_mapper == self.default_mapper_spec(),
                    decreases values.len() - i,
                {
                    let ghost before = b.query_params@;
                    let v = values[i].clone();
                    let n = array_name.clone();
                    b.query_params.push((n, v));
                    proof {
                        assert(pairs_view(b.query_params@) =~= pairs_view(before).push((name@ + "[]"@, vs[i as int])));
                        assert(vs.take(i + 1).map_values(|v: Seq<char>| (name@ + "[]"@, v)) =~= vs.take(
                            i as int,
                        ).map_values(|v: Seq<char>| (name@ + "[]"@, v)).push((name@ + "[]"@, vs[i as int])));
                        assert(pairs_view(b.query_params@) =~= start + vs.take(i + 1).map_values(
                            |v: Seq<char>| (name@ + "[]"@, v),
                        ));
                    }
                    i = i + 1;
                }
                proof {
                    assert(vs.take(values.len() as int) =~= vs);
                }
            },
        }
        b
    }

    /// Adds dynamic query parameters: each entry's values are added as by
    /// `query_params`, entry by entry.
    pub fn query_map(self, entries: Vec<(String, Vec<String>)>) -> (b: Self)
        ensures
            b.query_params_spec() == self.query_params_spec() + query_map_spec(
                self.query_param_style_spec(),
                entries_view(entries@),
            ),
            b.url_spec() == self.url_spec(),
            b.method_spec() == self.method_spec(),
            b.default_headers_spec() == self.default_headers_spec(),
            b.query_param_style_spec() == self.query_param_style_spec(),
            b.default_mapper_spec() == self.default_mapper_spec(),
    {
        let ghost es = entries_view(entries@);
        let ghost start = self.query_params_spec();
        let mut b = self;
        let total = entries.len();
        let mut rest = entries;
        let mut done: usize = 0;
        let ghost all = entries@;
        proof {
            assert(all.skip(0) =~= all);
            assert(es.take(0) =~= Seq::<(Seq<char>, Seq<Seq<char>>)>::empty());
        }
        while rest.len() > 0
            invariant
                es == entries_view(all),
                total == all.len(),
                done <= all.len(),
                rest@ == all.skip(done as int),
                b.query_params_spec() == start + query_map_spec(
                    self.query_param_style_spec(),
                    es.take(done as int),
                ),
                b.url_spec() == self.url_spec(),
                b.method_spec() == self.method_spec(),
                b.default_headers_spec() == self.default_headers_spec(),
                b.query_param_style_spec() == self.query_param_style_spec(),
                b.default_mapper_spec() == self.default_mapper_spec(),
            decreases rest.len(),
        {
            proof {
                assert(done < all.len());
            }
            let (name, values) = rest.remove(0);
            proof {
                assert(all.skip(done as int).drop_first() =~= all.skip(done + 1));
                assert(es.take(done + 1).drop_last() =~= es.take(done as int));
                assert(es[done as int] == (name@, strings_view(values@)));
            }
            b = b.query_params(name.as_str(), values);
            done = done + 1;
        }
        proof {
            assert(es.take(done as int) =~= es);
        }
        b
    }

    /// The request URL with the query parameters appended, form-urlencoded;
    /// without query parameters the URL is unchanged.
    pub fn url(&self) -> (u: ParsedUrl)
        ensures
            u@ == (if self.query_params_spec().len() == 0 {
                self.url_spec()
            } else {
                url_extend_query_spec(self.url_spec(), self.query_params_spec())
            }),
    {
        let mut url = self.url.clone();
        if self.query_params.len() > 0 {
            url.extend_query_pairs(&self.query_params);
        }
        url
    }
}

/// What `String::from_utf8_lossy` gives for a byte sequence: the decoded
/// text, with each invalid sequence replaced by U+FFFD.
pub uninterp spec fn utf8_lossy_spec(bytes: Seq<u8>) -> Seq<char>;

/// Decodes bytes as UTF-8, replacing invalid sequences
/// (`String::from_utf8_lossy`); valid UTF-8 decodes exactly.
#[verifier::external_body]
pub fn utf8_lossy(bytes: &[u8]) -> (s: String)
    ensures
        s@ == utf8_lossy_spec(bytes@),
        vstd::utf8::valid_utf8(bytes@) ==> s@ == vstd::utf8::decode_utf8(bytes@),
{
    String::from_utf8_lossy(bytes).into_owned()
}

/// Buffered response data handed to response exception mappers: the
/// status, the headers as (name, value) pairs and the raw body.
pub struct ResponseExceptionContext<'a> {
    status: u16,
    headers: &'a Vec<(String, String)>,
    body: &'a [u8],
}

impl<'a> ResponseExceptionContext<'a> {
    /// The status held by the context.
    pub closed spec fn status_spec(&self) -> u16 {
        self.status
    }

    /// The headers held by the context.
    pub closed spec fn headers_spec(&self) -> Seq<(String, String)> {
        self.headers@
    }

    /// The body held by the context.
    pub closed spec fn body_spec(&self) -> Seq<u8> {
        self.body@
    }

    /// Wraps a buffered response.
    pub fn new(status: u16, headers: &'a Vec<(String, String)>, body: &'a [u8]) -> (c: Self)
        ensures
            c.status_spec() == status,
            c.headers_spec() == headers@,
            c.body_spec() == body@,
    {
        ResponseExceptionContext { status, headers, body }
    }

    /// The HTTP response status.
    pub fn status(&self) -> (s: u16)
        ensures
            s == self.status_spec(),
    {
        self.status
    }

    /// The HTTP response headers.
    pub fn headers(&self) -> (h: &Vec<(String, String)>)
        ensures
            h@ == self.headers_spec(),
    {
        self.headers
    }

    /// The raw buffered response body.
    pub fn body(&self) -> (b: &[u8])
        ensures
            b@ == self.body_spec(),
    {
        self.body
    }

    /// The body decoded as UTF-8, invalid sequences replaced.
    pub fn body_text_lossy(&self) -> (s: String)
        ensures
            s@ == utf8_lossy_spec(self.body_spec()),
    {
        utf8_lossy(self.body)
    }
}

/// The default mapping of a response: when enabled, a status `>= 400`
/// becomes `Error::Http` carrying the status and the body decoded lossily.
pub fn default_response_exception(status: u16, body: &[u8], enabled: bool) -> (r: Option<Error>)
    ensures
        r is Some <==> enabled && status >= 400,
        r matches Some(e) ==> (e matches Error::Http { status: s, body: b } && s == status && b@
            == utf8_lossy_spec(body@)),
{
    if enabled && status >= 400 {
        Some(Error::Http { status, body: utf8_lossy(body) })
    } else {
        None
    }
}

/// Why a typed request fails on a buffered response: a response exception
/// mapper reported an error, or the default mapping turned an error status
/// into `Error::Http`.
#[derive(Debug)]
pub enum ResponseFailure<E> {
    /// The error reported by a response exception mapper.
    Mapped(E),
    /// The error of the default mapping.
    Status(Error),
}

/// Maps a buffered response to an error: the mappers are consulted in
/// order through `call`, and the first one that reports an error decides;
/// when none does, the default mapping applies (when enabled, a status
/// `>= 400` becomes `Error::Http`).
pub fn map_response_exception<'a, M, E, F>(
    context: &ResponseExceptionContext<'a>,
    mappers: &Vec<ResponseExceptionMapper<M>>,
    call: &F,
    default_enabled: bool,
) -> (r: Option<ResponseFailure<E>>) where F: Fn(&M, &ResponseExceptionContext<'a>) -> Option<E>
    requires
        forall|i: int| 0 <= i < mappers@.len() ==> call.requires((&mappers@[i].mapper_of(), context)),
    ensures
        r matches Some(ResponseFailure::Mapped(e)) ==> exists|i: int|
            0 <= i < mappers@.len() && (forall|j: int|
                0 <= j < i ==> call.ensures((&mappers@[j].mapper_of(), context), None::<E>)) && call.ensures(
                (&mappers@[i].mapper_of(), context),
                Some(e),
            ),
        !(r matches Some(ResponseFailure::Mapped(_))) ==> forall|j: int|
            0 <= j < mappers@.len() ==> call.ensures((&mappers@[j].mapper_of(), context), None::<E>),
        !(r matches Some(ResponseFailure::Mapped(_))) ==> (r is Some <==> default_enabled
            && context.status_spec() >= 400),
        r matches Some(ResponseFailure::Status(e)) ==> (e matches Error::Http { status: s, body: b } && s
            == context.status_spec() && b@ == utf8_lossy_spec(context.body_spec())),
{
    let mut i: usize = 0;
    while i < mappers.len()
        invariant
            i <= mappers@.len(),
            forall|k: int| 0 <= k < mappers@.len() ==> call.requires((&mappers@[k].mapper_of(), context)),
            forall|j: int| 0 <= j < i ==> call.ensures((&mappers@[j].mapper_of(), context), None::<E>),
        decreases mappers@.len() - i,
    {
        let mapper = mappers[i].mapper();
        let outcome = call(mapper, context);
        match outcome {
            Some(e) => {
                return Some(ResponseFailure::Mapped(e));
            },
            None => {},
        }
        i = i + 1;
    }
    match default_response_exception(context.status(), context.body(), default_enabled) {
        Some(e) => Some(ResponseFailure::Status(e)),
        None => None,
    }
}

} // verus!
