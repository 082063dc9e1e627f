//! The builder from which clients are created.

use vstd::prelude::*;

use crate::base64::{base64_spec, base64_standard, is_b64_output_char, lemma_base64_alphabet};
use crate::config::{
    env_findings, env_loaded, env_settings_applied, env_failure_spec, is_default_config,
    opt_url_view, QueryParamStyle, ResponseExceptionMapper, RestClientConfig,
};
use crate::env_config::EnvSnapshot;
use crate::error::Error;
use crate::headers::{
    check_header_value, header_insert_spec, header_list_view, header_name_canonical,
    header_name_valid, header_value_valid, headers_well_formed, insert_header,
    lemma_insert_keeps_well_formed, parse_header_name,
};
use crate::client::clone_pairs;
use crate::text::{owned, push_str};
use crate::url_model::{url_parse_error_spec, url_parse_spec, ParsedUrl};
use vstd::string::StringSliceAdditionalSpecFns;

verus! {

/// Implemented by client types that can be built from a configuration.
pub trait BuildFromConfig<M>: Sized {
    /// The error reported when building fails.
    type BuildError;

    /// Builds a client from runtime configuration.
    fn build_from_config(config: RestClientConfig<M>) -> Result<Self, Self::BuildError>;
}

/// Builder of clients of type `T` whose response exception mappers have
/// type `M`.
#[derive(Debug)]
pub struct RestClientBuilder<T, M> {
    config: RestClientConfig<M>,
    marker: std::marker::PhantomData<T>,
}

impl<T, M> View for RestClientBuilder<T, M> {
    type V = RestClientConfig<M>;

    /// The configuration collected so far.
    closed spec fn view(&self) -> RestClientConfig<M> {
        self.config
    }
}

impl<T, M: Clone> Clone for RestClientBuilder<T, M> {
    fn clone(&self) -> (b: Self)
        ensures
            header_list_view(b@.default_headers@) == header_list_view(self@.default_headers@),
    {
        proof {
            use_type_invariant(self);
        }
        let mut config = self.config.clone();
        config.default_headers = clone_pairs(&self.config.default_headers);
        RestClientBuilder { config, marker: std::marker::PhantomData }
    }
}

impl<T, M> RestClientBuilder<T, M> {
    /// The default headers always have distinct, valid, canonical names.
    #[verifier::type_invariant]
    spec fn headers_canonical(self) -> bool {
        headers_well_formed(header_list_view(self.config.default_headers@))
    }
}

impl<T, M> Default for RestClientBuilder<T, M> {
    fn default() -> (b: Self)
        ensures
            is_default_config(b@),
    {
        Self::new()
    }
}

/// The header list after `header` accepted `name` and `value`.
pub open spec fn with_header(headers: Seq<(String, String)>, name: Seq<char>, value: Seq<char>) -> Seq<(Seq<char>, Seq<char>)> {
    header_insert_spec(header_list_view(headers), header_name_canonical(name), value)
}

/// The `Authorization` value for HTTP Basic authentication: `Basic `
/// followed by the base64 encoding of the UTF-8 bytes of `user:password`.
pub open spec fn basic_auth_value(username: Seq<char>, password: Seq<char>) -> Seq<char> {
    "Basic "@ + base64_spec(vstd::utf8::encode_utf8(username + ":"@ + password))
}

impl<T, M> RestClientBuilder<T, M> {
    /// Creates an empty builder.
    pub fn new() -> (b: Self)
        ensures
            is_default_config(b@),
    {
        RestClientBuilder { config: RestClientConfig::default(), marker: std::marker::PhantomData }
    }

    /// The configuration collected so far. Its default headers have
    /// distinct, valid, canonical names.
    pub fn config(&self) -> (c: &RestClientConfig<M>)
        ensures
            *c == self@,
            headers_well_formed(header_list_view(c.default_headers@)),
    {
        proof {
            use_type_invariant(self);
        }
        &self.config
    }

    /// Sets the configuration key used by `load_env`.
    pub fn config_key(self, key: &str) -> (b: Self)
        ensures
            b@.config_key matches Some(k) && k@ == key@,
            b@ == (RestClientConfig { config_key: b@.config_key, ..self@ }),
    {
        proof {
            use_type_invariant(&self);
        }
        let mut b = self;
        b.config.config_key = Some(owned(key));
        b
    }

    /// Applies environment configuration for the current config key.
    pub fn load_env(self, env: &EnvSnapshot) -> (r: Result<Self, Error>)
        ensures
            self@.config_key is None ==> (r matches Ok(b) && b@ == self@),
            self@.config_key matches Some(key) ==> {
                let f = env_findings(key@, env@);
                &&& (r is Ok <==> env_settings_applied(f) == 7)
                &&& (r matches Ok(b) ==> env_loaded(self@, b@, f))
                &&& (r matches Err(e) ==> env_failure_spec(f, e))
            },
    {
        proof {
            use_type_invariant(&self);
        }
        let RestClientBuilder { mut config, marker } = self;
        match config.load_env(env) {
            Ok(()) => Ok(RestClientBuilder { config, marker }),
            Err(e) => Err(e),
        }
    }

    /// Sets the base URL used by all request paths.
    pub fn base_url(self, base_url: &str) -> (r: Result<Self, Error>)
        ensures
            r is Ok <==> url_parse_spec(base_url@) is Some,
            r matches Ok(b) ==> opt_url_view(b@.base_url) == url_parse_spec(base_url@) && b@ == (
            RestClientConfig { base_url: b@.base_url, ..self@ }),
            r matches Err(e) ==> (e matches Error::InvalidBaseUrl(source) && source@ == url_parse_error_spec(
                base_url@,
            )),
    {
        match ParsedUrl::parse(base_url) {
            Ok(url) => {
                proof {
            use_type_invariant(&self);
        }
        let mut b = self;
                b.config.base_url = Some(url);
                Ok(b)
            },
            Err(source) => Err(Error::InvalidBaseUrl(source)),
        }
    }

    /// Adds or replaces a default header sent with every request. The name
    /// is stored in its canonical lower-case form.
    pub fn header(self, name: &str, value: &str) -> (r: Result<Self, Error>)
        ensures
            r is Ok <==> header_name_valid(name@) && header_value_valid(value.spec_bytes()),
            r matches Ok(b) ==> header_list_view(b@.default_headers@) == with_header(
                self@.default_headers@,
                name@,
                value@,
            ) && b@ == (RestClientConfig { default_headers: b@.default_headers, ..self@ }),
            r matches Ok(b) ==> headers_well_formed(header_list_view(b@.default_headers@)),
            !header_name_valid(name@) ==> (r matches Err(Error::InvalidHeaderName(n)) && n@ == name@),
            header_name_valid(name@) && !header_value_valid(value.spec_bytes()) ==> (r matches Err(
                Error::InvalidHeaderValue { name: n, .. },
            ) && n@ == header_name_canonical(name@)),
    {
        let canonical = match parse_header_name(name) {
            Some(c) => c,
            None => {
                return Err(Error::InvalidHeaderName(owned(name)));
            },
        };
        match check_header_value(value) {
            Ok(()) => {},
            Err(source) => {
                return Err(Error::InvalidHeaderValue { name: canonical, source });
            },
        }
        proof {
            use_type_invariant(&self);
            lemma_insert_keeps_well_formed(header_list_view(self.config.default_headers@), name@, value@);
        }
        let RestClientBuilder { mut config, marker } = self;
        insert_header(&mut config.default_headers, canonical, owned(value));
        Ok(RestClientBuilder { config, marker })
    }

    /// Configures HTTP Basic authentication for every request: the
    /// `authorization` header becomes `Basic ` followed by the base64
    /// encoding of `username:password`.
    pub fn basic_auth(self, username: &str, password: &str) -> (r: Result<Self, Error>)
        ensures
            r matches Ok(b) && header_list_view(b@.default_headers@) == header_insert_spec(
                header_list_view(self@.default_headers@),
                "authorization"@,
                basic_auth_value(username@, password@),
            ) && b@ == (RestClientConfig { default_headers: b@.default_headers, ..self@ }),
    {
        let mut credentials = owned(username);
        push_str(&mut credentials, ":");
        push_str(&mut credentials, password);
        let encoded = base64_standard(credentials.as_str().as_bytes());
        let mut value = owned("Basic ");
        push_str(&mut value, encoded.as_str());
        proof {
            reveal_strlit("Basic ");
            reveal_strlit("Authorization");
            reveal_strlit("authorization");
            let b64 = base64_spec(vstd::utf8::encode_utf8(credentials@));
            lemma_base64_alphabet(vstd::utf8::encode_utf8(credentials@));
            assert(value@ == "Basic "@ + b64);
            assert(vstd::utf8::is_ascii_chars(value@)) by {
                assert forall|i: int| 0 <= i < value@.len() implies '\0' <= #[trigger] value@[i] <= '\u{7f}' by {
                    if i >= 6 {
                        assert(value@[i] == b64[i - 6]);
                        assert(is_b64_output_char(b64[i - 6]));
                    }
                }
            }
            vstd::utf8::is_ascii_chars_encode_utf8(value@);
            assert(header_value_valid(vstd::utf8::encode_utf8(value@))) by {
                assert forall|i: int| 0 <= i < vstd::utf8::encode_utf8(value@).len() implies {
                    let b = #[trigger] vstd::utf8::encode_utf8(value@)[i];
                    b == 9 || (b >= 32 && b != 127)
                } by {
                    assert(value@[i] as u8 == vstd::utf8::encode_utf8(value@)[i]);
                    if i >= 6 {
                        assert(value@[i] == b64[i - 6]);
                        assert(is_b64_output_char(b64[i - 6]));
                    }
                }
            }
            assert(header_name_valid("Authorization"@));
            assert(header_name_canonical("Authorization"@) =~= "authorization"@);
        }
        self.header("Authorization", value.as_str())
    }

    /// Enables or disables redirect following.
    pub fn follow_redirects(self, enabled: bool) -> (b: Self)
        ensures
            b@ == (RestClientConfig { follow_redirects: enabled, ..self@ }),
    {
        proof {
            use_type_invariant(&self);
        }
        let mut b = self;
        b.config.follow_redirects = enabled;
        b
    }

    /// Sets an HTTP proxy URL.
    pub fn proxy(self, url: &str) -> (b: Self)
        ensures
            b@.proxy matches Some(p) && p@ == url@,
            b@ == (RestClientConfig { proxy: b@.proxy, ..self@ }),
    {
        proof {
            use_type_invariant(&self);
        }
        let mut b = self;
        b.config.proxy = Some(owned(url));
        b
    }

    /// Sets a total request timeout; the same as `request_timeout`.
    pub fn timeout(self, timeout: std::time::Duration) -> (b: Self)
        ensures
            b@ == (RestClientConfig { timeout: Some(timeout), ..self@ }),
    {
        proof {
            use_type_invariant(&self);
        }
        let mut b = self;
        b.config.timeout = Some(timeout);
        b
    }

    /// Sets a total request timeout, from connection through response body
    /// download.
    pub fn request_timeout(self, timeout: std::time::Duration) -> (b: Self)
        ensures
            b@ == (RestClientConfig { timeout: Some(timeout), ..self@ }),
    {
        proof {
            use_type_invariant(&self);
        }
        let mut b = self;
        b.config.timeout = Some(timeout);
        b
    }

    /// Sets the timeout for reading response body chunks.
    pub fn read_timeout(self, timeout: std::time::Duration) -> (b: Self)
        ensures
            b@ == (RestClientConfig { read_timeout: Some(timeout), ..self@ }),
    {
        proof {
            use_type_invariant(&self);
        }
        let mut b = self;
        b.config.read_timeout = Some(timeout);
        b
    }

    /// Sets the timeout for establishing a connection.
    pub fn connect_timeout(self, timeout: std::time::Duration) -> (b: Self)
        ensures
            b@ == (RestClientConfig { connect_timeout: Some(timeout), ..self@ }),
    {
        proof {
            use_type_invariant(&self);
        }
        let mut b = self;
        b.config.connect_timeout = Some(timeout);
        b
    }

    /// Sets how repeated query parameters are encoded.
    pub fn query_param_style(self, style: QueryParamStyle) -> (b: Self)
        ensures
            b@ == (RestClientConfig { query_param_style: style, ..self@ }),
    {
        proof {
            use_type_invariant(&self);
        }
        let mut b = self;
        b.config.query_param_style = style;
        b
    }

    /// Registers a response exception mapper; mappers with lower priority
    /// values run first.
    pub fn response_exception_mapper(self, priority: i32, mapper: M) -> (b: Self)
        ensures
            b@.response_exception_mappers@.len() == self@.response_exception_mappers@.len() + 1,
            b@.response_exception_mappers@.drop_last() == self@.response_exception_mappers@,
            b@.response_exception_mappers@.last().priority_of() == priority,
            b@.response_exception_mappers@.last().mapper_of() == mapper,
            b@ == (RestClientConfig { response_exception_mappers: b@.response_exception_mappers, ..self@ }),
    {
        proof {
            use_type_invariant(&self);
        }
        let ghost before = self@;
        let RestClientBuilder { mut config, marker } = self;
        config.response_exception_mappers.push(ResponseExceptionMapper::new(priority, mapper));
        proof {
            assert(config.response_exception_mappers@.drop_last() =~= before.response_exception_mappers@);
        }
        RestClientBuilder { config, marker }
    }

    /// Disables the default mapping of statuses `>= 400` to `Error::Http`.
    pub fn disable_default_response_exception_mapper(self) -> (b: Self)
        ensures
            b@ == (RestClientConfig { default_response_exception_mapper: false, ..self@ }),
    {
        proof {
            use_type_invariant(&self);
        }
        let mut b = self;
        b.config.default_response_exception_mapper = false;
        b
    }

    /// Builds the client from the collected configuration: the result is
    /// what `T::build_from_config` returns for that configuration.
    pub fn build(self) -> (r: Result<T, T::BuildError>)
        where T: BuildFromConfig<M>,
        ensures
            call_ensures(T::build_from_config, (self@,), r),
    {
        T::build_from_config(self.config)
    }
}

} // verus!
