use std::time::Duration;

use catnap::client::{map_response_exception, trim_start_slashes, ResponseFailure};
use catnap::error::status_display;
use catnap::env_config::{
    env_property_name, normalize_config_key, parse_config_bool, parse_config_duration_ms, parse_u64,
    proxy_address_to_url, EnvConfigSource, IntErrorKind,
};
use catnap::{
    default_response_exception, encode_path_segment, EnvSnapshot, Error, MediaOperation, ParsedUrl,
    QueryParamStyle, ResponseExceptionContext, RestClient, RestClientBuilder, RestClientConfig,
};

type Builder = RestClientBuilder<RestClient<()>, ()>;

fn env(vars: &[(&str, &str)]) -> EnvSnapshot {
    EnvSnapshot::new(
        vars.iter()
            .map(|(k, v)| (k.to_string(), v.to_string()))
            .collect(),
    )
}

#[test]
fn builder_requires_base_url() {
    let err = RestClient::<()>::from_config(RestClientConfig::default())
        .expect_err("missing base URL should fail");

    assert!(matches!(err, Error::MissingBaseUrl));
}

#[test]
fn request_reports_invalid_url_paths() {
    let client = RestClient::<()>::from_config(RestClientConfig {
        base_url: Some(ParsedUrl::parse("https://example.com").expect("valid base URL")),
        ..RestClientConfig::default()
    })
    .expect("client should build");

    let err = match client.request(http::Method::GET, "https://[") {
        Ok(_) => panic!("invalid request path should fail"),
        Err(err) => err,
    };

    assert!(matches!(err, Error::InvalidRequestUrl { .. }));
}

#[test]
fn path_segment_encoding_preserves_single_segment() {
    assert_eq!(encode_path_segment("a/b c"), "a%2Fb%20c");
}

#[test]
fn media_operations_have_stable_display_text() {
    assert_eq!(
        MediaOperation::RequestSerialization.to_string(),
        "request body serialization"
    );
    assert_eq!(
        MediaOperation::ResponseDeserialization.to_string(),
        "response deserialization"
    );
}

#[test]
fn builder_sets_split_timeouts() {
    let builder = Builder::new()
        .request_timeout(Duration::from_secs(10))
        .read_timeout(Duration::from_secs(5))
        .connect_timeout(Duration::from_secs(2));

    assert_eq!(builder.config().timeout, Some(Duration::from_secs(10)));
    assert_eq!(builder.config().read_timeout, Some(Duration::from_secs(5)));
    assert_eq!(builder.config().connect_timeout, Some(Duration::from_secs(2)));
}

#[test]
fn builder_sets_config_key_and_proxy() {
    let builder = Builder::new()
        .config_key("users-api")
        .proxy("http://127.0.0.1:8080");

    assert_eq!(builder.config().config_key.as_deref(), Some("users-api"));
    assert_eq!(
        builder.config().proxy.as_deref(),
        Some("http://127.0.0.1:8080")
    );
}

#[test]
fn timeout_sets_total_request_timeout() {
    let builder = Builder::new().timeout(Duration::from_secs(10));

    assert_eq!(builder.config().timeout, Some(Duration::from_secs(10)));
}

#[test]
fn config_key_normalizes_to_environment_prefix() {
    assert_eq!(normalize_config_key("users-api"), "USERS_API");
    assert_eq!(env_property_name("followRedirects"), "FOLLOW_REDIRECTS");
    assert_eq!(env_property_name("connectTimeout"), "CONNECT_TIMEOUT");
}

#[test]
fn config_parser_applies_shell_friendly_env_keys() {
    let vars = env(&[
        ("CATNAP_USERS_API_URL", "https://api.example.com"),
        ("CATNAP_USERS_API_FOLLOW_REDIRECTS", "true"),
        ("CATNAP_USERS_API_PROXY", "proxy.example.com:8080"),
        ("CATNAP_USERS_API_CONNECT_TIMEOUT", "250"),
        ("CATNAP_USERS_API_READ_TIMEOUT", "1000"),
        ("CATNAP_USERS_API_QUERY_PARAM_STYLE", "COMMA_SEPARATED"),
        ("CATNAP_DISABLE_DEFAULT_MAPPER", "true"),
    ]);

    let mut config = RestClientConfig::<()> {
        config_key: Some("users-api".to_owned()),
        ..RestClientConfig::default()
    };
    let result = config.load_env(&vars);

    result.expect("env config should parse");
    assert_eq!(
        config.base_url.as_ref().map(ParsedUrl::as_str),
        Some("https://api.example.com/")
    );
    assert!(config.follow_redirects);
    assert_eq!(
        config.proxy.as_deref(),
        Some("http://proxy.example.com:8080")
    );
    assert_eq!(config.connect_timeout, Some(Duration::from_millis(250)));
    assert_eq!(config.read_timeout, Some(Duration::from_millis(1000)));
    assert_eq!(config.timeout, None);
    assert_eq!(config.query_param_style, QueryParamStyle::CommaSeparated);
    assert!(!config.default_response_exception_mapper);
}

#[test]
fn basic_auth_sets_authorization_header() {
    let builder = Builder::new()
        .basic_auth("catnap", "secret")
        .expect("basic auth header should be valid");
    let value = builder
        .config()
        .default_header("Authorization")
        .expect("authorization header should be set");

    assert_eq!(value, "Basic Y2F0bmFwOnNlY3JldA==");
}

#[test]
fn microprofile_keys_win_over_shell_keys() {
    let vars = env(&[
        ("CATNAP_USERS_API_URL", "https://shell.example.com"),
        ("users-api/mp-rest/url", "https://mp.example.com"),
        ("users-api/mp-rest/followRedirects", "1"),
        ("CATNAP_USERS_API_FOLLOW_REDIRECTS", "0"),
    ]);
    let mut config = RestClientConfig::<()>::default();
    config.load_env_for_key("users-api", &vars).expect("env config should parse");
    assert_eq!(
        config.base_url.as_ref().map(ParsedUrl::as_str),
        Some("https://mp.example.com/")
    );
    assert!(config.follow_redirects);
}

#[test]
fn uri_wins_over_url_and_proxy_address_over_proxy() {
    let vars = env(&[
        ("api/mp-rest/url", "https://url.example.com"),
        ("api/mp-rest/uri", "https://uri.example.com"),
        ("CATNAP_API_PROXY", "proxy.example.com:1"),
        ("CATNAP_API_PROXY_ADDRESS", "https://address.example.com:2"),
        (
            "microprofile.rest.client.disable.default.response.exception.mapper",
            "true",
        ),
        ("microprofile.rest.client.disable.default.mapper", "false"),
    ]);
    let mut config = RestClientConfig::<()>::default();
    config.load_env_for_key("api", &vars).expect("env config should parse");
    assert_eq!(
        config.base_url.as_ref().map(ParsedUrl::as_str),
        Some("https://uri.example.com/")
    );
    assert_eq!(config.proxy.as_deref(), Some("https://address.example.com:2"));
    assert!(config.default_response_exception_mapper);
}

#[test]
fn invalid_env_values_are_reported_and_stop_loading() {
    let vars = env(&[
        ("CATNAP_API_URL", "https://api.example.com"),
        ("CATNAP_API_FOLLOW_REDIRECTS", "yes"),
        ("CATNAP_API_CONNECT_TIMEOUT", "5"),
    ]);
    let mut config = RestClientConfig::<()>::default();
    let err = config.load_env_for_key("api", &vars).expect_err("yes is no boolean");
    match err {
        Error::InvalidConfigValue { key, value, message } => {
            assert_eq!(key, "CATNAP_API_FOLLOW_REDIRECTS");
            assert_eq!(value, "yes");
            assert_eq!(message, "expected true or false");
        }
        other => panic!("unexpected error {other:?}"),
    }
    assert!(config.base_url.is_some());
    assert_eq!(config.connect_timeout, None);

    let vars = env(&[("CATNAP_API_READ_TIMEOUT", "12x")]);
    let err = config.load_env_for_key("api", &vars).expect_err("12x is no number");
    assert_eq!(
        err.message(),
        "invalid config value `12x` for `CATNAP_API_READ_TIMEOUT`: invalid digit found in string"
    );

    let vars = env(&[("CATNAP_API_QUERY_PARAM_STYLE", "pipes")]);
    let err = config.load_env_for_key("api", &vars).expect_err("unknown style");
    assert!(matches!(err, Error::InvalidConfigValue { .. }));

    let vars = env(&[("CATNAP_API_URL", "not a url")]);
    let err = config.load_env_for_key("api", &vars).expect_err("invalid url");
    assert!(matches!(err, Error::InvalidConfigValue { .. }));
}

#[test]
fn load_env_without_config_key_changes_nothing() {
    let vars = env(&[("CATNAP_API_URL", "https://api.example.com")]);
    let mut config = RestClientConfig::<()>::default();
    config.load_env(&vars).expect("nothing to load");
    assert!(config.base_url.is_none());
}

#[test]
fn builder_calls_after_load_env_win() {
    let vars = env(&[("CATNAP_USERS_READ_TIMEOUT", "100")]);
    let builder = Builder::new()
        .config_key("users")
        .load_env(&vars)
        .expect("env config should parse")
        .read_timeout(Duration::from_secs(3));
    assert_eq!(builder.config().read_timeout, Some(Duration::from_secs(3)));
}

#[test]
fn env_source_reads_keys_in_both_spellings() {
    let source = EnvConfigSource::new("users-api");
    let vars = env(&[("CATNAP_USERS_API_CONNECT_TIMEOUT", "7")]);
    assert_eq!(
        source.get(&vars, "connectTimeout"),
        Some(("CATNAP_USERS_API_CONNECT_TIMEOUT".to_owned(), "7".to_owned()))
    );
    assert_eq!(
        source.get_any(&vars, &["readTimeout", "connectTimeout"]),
        Some(("CATNAP_USERS_API_CONNECT_TIMEOUT".to_owned(), "7".to_owned()))
    );
    let vars = env(&[("CATNAP_DISABLE_DEFAULT_RESPONSE_EXCEPTION_MAPPER", "1")]);
    assert_eq!(
        source.get_global_any(
            &vars,
            &["disable.default.mapper", "disable.default.response.exception.mapper"]
        ),
        Some((
            "CATNAP_DISABLE_DEFAULT_RESPONSE_EXCEPTION_MAPPER".to_owned(),
            "1".to_owned()
        ))
    );
    assert_eq!(source.get(&vars, "url"), None);
}

#[test]
fn config_values_parse() {
    assert!(parse_config_bool("k", "True").unwrap());
    assert!(!parse_config_bool("k", "0").unwrap());
    assert!(parse_config_bool("k", "no").is_err());
    assert_eq!(
        parse_config_duration_ms("k", "+250").unwrap(),
        Duration::from_millis(250)
    );
    assert_eq!(parse_u64("18446744073709551615"), Ok(u64::MAX));
    assert_eq!(parse_u64("18446744073709551616"), Err(IntErrorKind::PosOverflow));
    assert_eq!(parse_u64(""), Err(IntErrorKind::Empty));
    assert_eq!(parse_u64("+"), Err(IntErrorKind::InvalidDigit));
    assert_eq!(parse_u64("-1"), Err(IntErrorKind::InvalidDigit));
    assert_eq!(
        IntErrorKind::PosOverflow.message(),
        "300".parse::<u8>().unwrap_err().to_string()
    );
    assert_eq!(
        IntErrorKind::InvalidDigit.message(),
        "x".parse::<u64>().unwrap_err().to_string()
    );
    assert_eq!(
        IntErrorKind::Empty.message(),
        "".parse::<u64>().unwrap_err().to_string()
    );
}

#[test]
fn proxy_values_get_a_scheme() {
    assert_eq!(proxy_address_to_url("proxy:8080"), "http://proxy:8080");
    assert_eq!(proxy_address_to_url("socks5://proxy:1080"), "socks5://proxy:1080");
}

#[test]
fn query_param_style_names() {
    assert_eq!(
        QueryParamStyle::parse_config("multi-pairs"),
        Some(QueryParamStyle::MultiPairs)
    );
    assert_eq!(
        QueryParamStyle::parse_config("comma_separated"),
        Some(QueryParamStyle::CommaSeparated)
    );
    assert_eq!(
        QueryParamStyle::parse_config("ARRAY_PAIRS"),
        Some(QueryParamStyle::ArrayPairs)
    );
    assert_eq!(QueryParamStyle::parse_config("Array_Pairs"), None);
}

fn client(style: QueryParamStyle, base: &str) -> RestClient<()> {
    let config = Builder::new()
        .base_url(base)
        .expect("valid base URL")
        .query_param_style(style);
    RestClient::from_config(config.config().clone()).expect("client should build")
}

#[test]
fn query_param_styles_encode_repeated_values() {
    let values = vec!["rust".to_owned(), "http".to_owned()];
    let request = client(QueryParamStyle::ArrayPairs, "http://127.0.0.1:1")
        .request(http::Method::GET, "/search")
        .unwrap()
        .query_params("tag", values.clone());
    assert_eq!(
        request.url().as_str(),
        "http://127.0.0.1:1/search?tag%5B%5D=rust&tag%5B%5D=http"
    );

    let request = client(QueryParamStyle::MultiPairs, "https://api.example.com")
        .request(http::Method::GET, "search")
        .unwrap()
        .query_params("tag", values.clone());
    assert_eq!(
        request.url().as_str(),
        "https://api.example.com/search?tag=rust&tag=http"
    );

    let request = client(QueryParamStyle::CommaSeparated, "https://api.example.com")
        .request(http::Method::GET, "search")
        .unwrap()
        .query_params("tag", values)
        .query_param("page", "2");
    assert_eq!(
        request.url().as_str(),
        "https://api.example.com/search?tag=rust%2Chttp&page=2"
    );

    let request = client(QueryParamStyle::CommaSeparated, "https://api.example.com")
        .request(http::Method::GET, "search")
        .unwrap()
        .query_params("tag", Vec::new());
    assert_eq!(request.url().as_str(), "https://api.example.com/search?tag=");

    let request = client(QueryParamStyle::MultiPairs, "https://api.example.com")
        .request(http::Method::GET, "search")
        .unwrap();
    assert_eq!(request.url().as_str(), "https://api.example.com/search");
}

#[test]
fn query_maps_use_the_configured_style() {
    let request = client(QueryParamStyle::ArrayPairs, "https://api.example.com")
        .request(http::Method::GET, "search")
        .unwrap()
        .query_map(vec![
            ("a".to_owned(), vec!["1".to_owned()]),
            ("b".to_owned(), vec!["2".to_owned(), "3".to_owned()]),
        ]);
    assert_eq!(
        request.url().as_str(),
        "https://api.example.com/search?a%5B%5D=1&b%5B%5D=2&b%5B%5D=3"
    );
}

#[test]
fn base_url_gets_trailing_slash_and_paths_join_below_it() {
    let c = client(QueryParamStyle::MultiPairs, "https://api.example.com/v1");
    assert_eq!(c.base_url().as_str(), "https://api.example.com/v1/");
    let request = c.request(http::Method::GET, "/users/42").unwrap();
    assert_eq!(request.url().as_str(), "https://api.example.com/v1/users/42");
    assert_eq!(trim_start_slashes("//a/b/"), "a/b/");
}

#[test]
fn proxy_rejected_by_reqwest_is_invalid_config() {
    let config = Builder::new()
        .base_url("https://api.example.com")
        .unwrap()
        .proxy("http://[::1")
        .config()
        .clone();
    match RestClient::from_config(config) {
        Err(Error::InvalidConfigValue { key, value, .. }) => {
            assert_eq!(key, "proxyAddress");
            assert_eq!(value, "http://[::1");
        }
        other => panic!("unexpected result {:?}", other.map(|_| ())),
    }
}

#[test]
fn mappers_run_in_priority_order() {
    let config = RestClientBuilder::<RestClient<char>, char>::new()
        .base_url("https://api.example.com")
        .unwrap()
        .response_exception_mapper(5, 'a')
        .response_exception_mapper(1, 'b')
        .response_exception_mapper(5, 'c')
        .response_exception_mapper(-3, 'd')
        .config()
        .clone();
    let client = RestClient::from_config(config).unwrap();
    let order: Vec<char> = client
        .response_exception_mappers()
        .iter()
        .map(|m| *m.mapper())
        .collect();
    assert_eq!(order, vec!['d', 'b', 'a', 'c']);
}

#[test]
fn error_statuses_map_to_http_errors_by_default() {
    match default_response_exception(404, b"missing", true) {
        Some(Error::Http { status, body }) => {
            assert_eq!(status, 404);
            assert_eq!(body, "missing");
        }
        other => panic!("unexpected {other:?}"),
    }
    assert!(default_response_exception(399, b"", true).is_none());
    assert!(default_response_exception(500, b"", false).is_none());
    match default_response_exception(500, &[0xff, b'a'], true) {
        Some(Error::Http { body, .. }) => assert_eq!(body, "\u{fffd}a"),
        other => panic!("unexpected {other:?}"),
    }
    let e = default_response_exception(404, b"gone", true).unwrap();
    assert_eq!(e.message(), "HTTP 404 Not Found: gone");
}

#[test]
fn headers_are_validated_and_replaced() {
    let builder = Builder::new()
        .header("User-Agent", "one")
        .unwrap()
        .header("user-agent", "two")
        .unwrap();
    assert_eq!(builder.config().default_headers.len(), 1);
    assert_eq!(
        builder.config().default_header("USER-AGENT").as_deref(),
        Some("two")
    );
    match Builder::new().header("Bad Header", "x") {
        Err(Error::InvalidHeaderName(name)) => assert_eq!(name, "Bad Header"),
        _ => panic!("expected an invalid header name"),
    }
    match Builder::new().header("X-Ok", "line\nbreak") {
        Err(e @ Error::InvalidHeaderValue { .. }) => assert_eq!(
            e.message(),
            "invalid HTTP header value for `x-ok`: failed to parse header value"
        ),
        _ => panic!("expected an invalid header value"),
    }
}

#[test]
fn invalid_base_url_is_reported() {
    let err = Builder::new().base_url("no scheme").err().expect("invalid");
    assert!(matches!(err, Error::InvalidBaseUrl(_)));
    assert!(err.message().starts_with("invalid base URL: "));
}

#[test]
fn error_messages() {
    assert_eq!(Error::MissingBaseUrl.message(), "base URL is required");
    assert_eq!(
        Error::InvalidHeaderName("a b".to_owned()).message(),
        "invalid HTTP header name `a b`"
    );
    assert_eq!(
        Error::UnsupportedMediaType {
            operation: MediaOperation::ResponseDeserialization,
            media_type: "text/csv".to_owned(),
        }
        .message(),
        "unsupported media type `text/csv` for response deserialization"
    );
}

#[test]
fn exception_context_exposes_the_buffered_response() {
    let headers = vec![("content-type".to_owned(), "text/plain".to_owned())];
    let body = [b'o', b'k', 0xff];
    let context = ResponseExceptionContext::new(429, &headers, &body);
    assert_eq!(context.status(), 429);
    assert_eq!(context.headers(), &headers);
    assert_eq!(context.body(), &body);
    assert_eq!(context.body_text_lossy(), "ok\u{fffd}");
}

#[test]
fn requests_carry_query_parameters_and_mapping_setting() {
    let config = Builder::new()
        .base_url("https://api.example.com")
        .unwrap()
        .disable_default_response_exception_mapper()
        .config()
        .clone();
    assert!(!config.default_response_exception_mapper);
    let client = RestClient::from_config(config).unwrap();
    let request = client
        .request(http::Method::POST, "items")
        .unwrap()
        .query_param("a", "1")
        .query_param("a", "2");
    assert_eq!(request.method(), &http::Method::POST);
    assert!(!request.default_response_exception_mapper());
    assert_eq!(
        request.query_params_added(),
        &vec![
            ("a".to_owned(), "1".to_owned()),
            ("a".to_owned(), "2".to_owned())
        ]
    );
    assert_eq!(request.url().as_str(), "https://api.example.com/items?a=1&a=2");
}

#[test]
fn url_errors_show_the_url_crate_message() {
    let err = Builder::new().base_url("/relative").err().expect("relative URL");
    assert_eq!(err.message(), "invalid base URL: relative URL without a base");
}

#[test]
fn status_codes_display_with_their_reason() {
    assert_eq!(status_display(404), "404 Not Found");
    assert_eq!(status_display(599), "599 <unknown status code>");
    assert_eq!(status_display(42), "42");
    assert_eq!(
        status_display(503),
        http::StatusCode::SERVICE_UNAVAILABLE.to_string()
    );
}

#[test]
fn first_mapper_reporting_an_error_wins() {
    let headers = Vec::new();
    let body = b"teapot".to_vec();
    let context = ResponseExceptionContext::new(418, &headers, &body);
    let mappers = vec![
        catnap::ResponseExceptionMapper::new(1, 0u32),
        catnap::ResponseExceptionMapper::new(2, 418u32),
        catnap::ResponseExceptionMapper::new(3, 418u32 + 1000),
    ];
    let call = |code: &u32, ctx: &ResponseExceptionContext<'_>| {
        if u32::from(ctx.status()) == *code % 1000 {
            Some(*code)
        } else {
            None
        }
    };
    match map_response_exception(&context, &mappers, &call, true) {
        Some(ResponseFailure::Mapped(code)) => assert_eq!(code, 418),
        other => panic!("unexpected {other:?}"),
    }
    let none: Vec<catnap::ResponseExceptionMapper<u32>> = Vec::new();
    match map_response_exception(&context, &none, &call, true) {
        Some(ResponseFailure::Status(Error::Http { status, body })) => {
            assert_eq!(status, 418);
            assert_eq!(body, "teapot");
        }
        other => panic!("unexpected {other:?}"),
    }
    assert!(map_response_exception(&context, &none, &call, false).is_none());
}

#[test]
fn clients_are_cloneable_and_keep_the_proxy_url() {
    let config = Builder::new()
        .base_url("https://api.example.com")
        .unwrap()
        .proxy("http://proxy.example.com:8080")
        .config()
        .clone();
    let client = RestClient::from_config(config).unwrap();
    let copy = client.clone();
    assert_eq!(copy.proxy_url().as_deref(), Some("http://proxy.example.com:8080"));
    assert!(copy.proxy().is_some());
    assert_eq!(copy.base_url().as_str(), "https://api.example.com/");
}

#[test]
fn url_error_messages_show_the_parse_error_of_the_input() {
    let client = RestClient::<()>::from_config(RestClientConfig {
        base_url: Some(ParsedUrl::parse("https://example.com").expect("valid base URL")),
        ..RestClientConfig::default()
    })
    .expect("client should build");
    let err = match client.request(http::Method::GET, "https://[") {
        Ok(_) => panic!("invalid request path should fail"),
        Err(err) => err,
    };
    match &err {
        Error::InvalidRequestUrl { path, source } => {
            assert_eq!(path, "https://[");
            assert_eq!(source.text(), source.source().to_string());
            assert_eq!(source.text(), "invalid IPv6 address");
        }
        other => panic!("unexpected {other:?}"),
    }
    assert_eq!(
        err.message(),
        "invalid request URL path `https://[`: invalid IPv6 address"
    );
}
