use catnap::base64::base64_standard;
use catnap::logging::{decimal, is_sensitive_header, logged_body, logged_header_value};
use catnap::paths::{expand_path, has_unclosed_placeholder, join_paths, path_placeholders, replace_all};
use catnap::{BuildFromConfig, Error, QueryParamStyle, RestClient, RestClientBuilder, RestClientConfig};
use catnap::resource::{
    body_for, parse_resource_args, plan_method, plan_rest_client, sender_for, take_http_attr,
    take_media_type_attr, validate_media_type,
    validate_path_params, AttrArgs, AttrSpec, BodyEncoding, HttpVerb, MethodSpec, ParamSpec,
    ResponseDecoding, ReturnKind, ReturnSpec,
};

fn attr(path: &[&str], args: AttrArgs) -> AttrSpec {
    AttrSpec {
        path: path.iter().map(|s| s.to_string()).collect(),
        args,
    }
}

fn lit(s: &str) -> AttrArgs {
    AttrArgs::Literal(s.to_owned())
}

fn param(ident: &str, attrs: Vec<AttrSpec>) -> ParamSpec {
    ParamSpec {
        ident: Some(ident.to_owned()),
        attrs,
    }
}

fn method(attrs: Vec<AttrSpec>, params: Vec<ParamSpec>, returns: ReturnSpec) -> MethodSpec {
    MethodSpec {
        is_async: true,
        takes_ref_self: true,
        attrs,
        params,
        return_type: returns,
    }
}

fn result_of(kind: ReturnKind) -> ReturnSpec {
    ReturnSpec::Result(vec![kind])
}

fn args(pairs: &[(&str, &str)]) -> Vec<(String, String)> {
    pairs
        .iter()
        .map(|(k, v)| (k.to_string(), v.to_string()))
        .collect()
}

fn first_error(resource: &[(&str, &str)], m: MethodSpec) -> String {
    match plan_rest_client("Api", &args(resource), &vec![m]) {
        Ok(_) => panic!("definition should be rejected"),
        Err(errors) => errors[0].clone(),
    }
}

fn accepted(resource: &[(&str, &str)], methods: Vec<MethodSpec>) -> catnap::resource::ClientPlan {
    match plan_rest_client("Api", &args(resource), &methods) {
        Ok(plan) => plan,
        Err(errors) => panic!("definition should be accepted: {errors:?}"),
    }
}

#[test]
fn extracts_path_placeholders() {
    assert_eq!(
        path_placeholders("/users/{user_id}/posts/{post_id}"),
        vec!["user_id".to_owned(), "post_id".to_owned()]
    );
}

#[test]
fn macro_diagnostics_are_compile_time_errors() {
    let get_items = || attr(&["get"], lit("/items"));
    let unit = || result_of(ReturnKind::Unit);

    let e = first_error(
        &[],
        method(
            vec![get_items()],
            vec![param("page", vec![attr(&["query"], AttrArgs::Malformed)])],
            unit(),
        ),
    );
    assert!(e.contains("expected string literal"), "{e}");

    let e = first_error(
        &[],
        method(
            vec![attr(&["get"], lit("/{id}"))],
            vec![param(
                "id",
                vec![attr(&["path"], lit("id")), attr(&["query"], lit("id"))],
            )],
            unit(),
        ),
    );
    assert!(
        e.contains("may have only one of #[path()], #[query()], or #[header]"),
        "{e}"
    );

    let mut m = method(vec![get_items()], vec![], unit());
    m.is_async = false;
    let e = first_error(&[], m);
    assert!(e.contains("REST client methods must be async"), "{e}");

    let mut m = method(vec![get_items()], vec![], unit());
    m.takes_ref_self = false;
    let e = first_error(&[], m);
    assert!(e.contains("must take &self as the first parameter"), "{e}");

    let e = first_error(
        &[],
        method(vec![get_items()], vec![param("body", vec![])], unit()),
    );
    assert!(
        e.contains("GET and HEAD REST client methods cannot have request body arguments"),
        "{e}"
    );

    let e = first_error(
        &[],
        method(vec![attr(&["get"], lit("/{id"))], vec![], unit()),
    );
    assert!(e.contains("unclosed `{` in path placeholder"), "{e}");

    let e = first_error(
        &[],
        method(
            vec![get_items(), attr(&["post"], lit("/items"))],
            vec![],
            unit(),
        ),
    );
    assert!(e.contains("may have only one HTTP method attribute"), "{e}");

    let e = first_error(
        &[],
        method(
            vec![get_items()],
            vec![],
            ReturnSpec::Result(vec![ReturnKind::Unit, ReturnKind::Other]),
        ),
    );
    assert!(
        e.contains("must return catnap::Result<T> with one type parameter"),
        "{e}"
    );

    let e = first_error(
        &[],
        method(
            vec![get_items()],
            vec![ParamSpec {
                ident: None,
                attrs: vec![attr(&["query"], lit("page"))],
            }],
            unit(),
        ),
    );
    assert!(e.contains("must use simple identifier patterns"), "{e}");

    let e = first_error(
        &[],
        method(
            vec![attr(&["get"], lit("/{id}"))],
            vec![param("id", vec![attr(&["path"], lit(""))])],
            unit(),
        ),
    );
    assert!(e.contains("#[path] parameter names must not be empty"), "{e}");

    let e = first_error(
        &[],
        method(
            vec![get_items()],
            vec![param("header", vec![attr(&["header"], lit("Bad Header"))])],
            unit(),
        ),
    );
    assert!(e.contains("is not a valid HTTP header name"), "{e}");

    let e = first_error(
        &[("path", "/v1"), ("path", "/v2")],
        method(vec![get_items()], vec![], unit()),
    );
    assert!(e.contains("duplicate `path` argument"), "{e}");

    let e = first_error(
        &[("path", "/users/{id}")],
        method(vec![attr(&["get"], lit(""))], vec![], unit()),
    );
    assert!(
        e.contains("missing #[path(\"id\")] argument for path placeholder"),
        "{e}"
    );

    let e = first_error(
        &[("path", "/users")],
        method(
            vec![attr(&["get"], lit(""))],
            vec![param("id", vec![attr(&["path"], lit("id"))])],
            unit(),
        ),
    );
    assert!(e.contains("#[path(\"id\")] does not match a path placeholder"), "{e}");

    let e = first_error(
        &[],
        method(
            vec![attr(&["get"], lit("/users/{id}/aliases/{id}"))],
            vec![param("id", vec![attr(&["path"], lit("id"))])],
            unit(),
        ),
    );
    assert!(e.contains("REST client path placeholders must be unique"), "{e}");

    let e = first_error(
        &[],
        method(
            vec![attr(&["post"], lit("/items"))],
            vec![param("first", vec![]), param("second", vec![])],
            unit(),
        ),
    );
    assert!(
        e.contains("REST client methods may have at most one unannotated body argument"),
        "{e}"
    );

    let e = first_error(
        &[("produces", "application json")],
        method(vec![get_items()], vec![], unit()),
    );
    assert!(e.contains("media types must use `type/subtype` syntax"), "{e}");

    let plan = accepted(
        &[("path", "/items")],
        vec![
            method(
                vec![
                    attr(&["catnap", "get"], lit("/{id}")),
                    attr(&["catnap", "produces"], lit("text/plain")),
                ],
                vec![param("id", vec![attr(&["path"], lit("id"))])],
                result_of(ReturnKind::Text),
            ),
            method(
                vec![
                    attr(&["catnap", "post"], lit("/{id}")),
                    attr(&["catnap", "consumes"], lit("text/plain")),
                ],
                vec![
                    param("id", vec![attr(&["path"], lit("id"))]),
                    param("name", vec![]),
                ],
                unit(),
            ),
        ],
    );
    assert_eq!(plan.methods.len(), 2);

    accepted(
        &[("path", "/users/{id}")],
        vec![method(
            vec![attr(&["get"], lit("/posts"))],
            vec![
                param("id", vec![attr(&["path"], AttrArgs::Empty)]),
                param("page", vec![attr(&["query"], AttrArgs::Empty)]),
            ],
            unit(),
        )],
    );
}

#[test]
fn client_plans_bind_parameters() {
    let plan = accepted(
        &[("path", "/users"), ("config_key", "users-api")],
        vec![method(
            vec![attr(&["get"], lit("/{id}"))],
            vec![
                param("id", vec![attr(&["path"], AttrArgs::Absent)]),
                param("verbose", vec![attr(&["query"], AttrArgs::Absent)]),
                param("trace", vec![attr(&["header"], lit("X-Trace"))]),
            ],
            result_of(ReturnKind::Other),
        )],
    );
    assert_eq!(plan.client_name, "ApiClient");
    assert_eq!(plan.config_key, "users-api");
    let m = &plan.methods[0];
    assert_eq!(m.verb, HttpVerb::Get);
    assert_eq!(m.path, "/users/{id}");
    assert_eq!(m.accept, "application/json");
    assert_eq!(m.content_type, "application/json");
    assert_eq!(m.path_params, args(&[("id", "id")]));
    assert_eq!(m.query_params, args(&[("verbose", "verbose")]));
    assert_eq!(m.header_params, args(&[("X-Trace", "trace")]));
    assert!(m.body.is_none());
    assert_eq!(m.response, ResponseDecoding::Json);

    let plan = accepted(&[], vec![]);
    assert_eq!(plan.config_key, "Api");
}

#[test]
fn rejected_methods_are_all_reported_in_order() {
    let mut not_async = method(vec![attr(&["get"], lit("/a"))], vec![], result_of(ReturnKind::Unit));
    not_async.is_async = false;
    let fine = method(vec![attr(&["get"], lit("/b"))], vec![], result_of(ReturnKind::Unit));
    let no_verb = method(vec![], vec![], result_of(ReturnKind::Unit));
    match plan_rest_client("Api", &args(&[]), &vec![not_async, fine, no_verb]) {
        Err(errors) => assert_eq!(
            errors,
            vec![
                "REST client methods must be async".to_owned(),
                "REST client methods must have an HTTP method attribute".to_owned(),
            ]
        ),
        Ok(_) => panic!("two methods are invalid"),
    }
}

#[test]
fn method_plans_pick_encodings() {
    let resource = parse_resource_args(&args(&[("consumes", "application/xml")])).unwrap();
    let plan = plan_method(
        &resource,
        &method(
            vec![attr(&["put"], lit("items/{name}"))],
            vec![
                param("name", vec![attr(&["path"], AttrArgs::Absent)]),
                param("item", vec![]),
            ],
            result_of(ReturnKind::Response),
        ),
    )
    .unwrap();
    assert_eq!(plan.verb, HttpVerb::Put);
    assert_eq!(plan.path, "/items/{name}");
    assert_eq!(plan.body, Some(("item".to_owned(), BodyEncoding::Xml)));
    assert_eq!(plan.response, ResponseDecoding::Raw);

    assert_eq!(body_for("application/json"), BodyEncoding::Json);
    assert_eq!(body_for("text/xml"), BodyEncoding::Xml);
    assert_eq!(body_for("text/plain"), BodyEncoding::Text);
    assert_eq!(body_for("text/csv"), BodyEncoding::Unsupported);

    let text = result_of(ReturnKind::Text);
    assert_eq!(sender_for(&text, "text/plain"), Ok(ResponseDecoding::Text));
    assert_eq!(sender_for(&text, "application/json"), Ok(ResponseDecoding::Json));
    assert_eq!(sender_for(&text, "text/csv"), Ok(ResponseDecoding::Unsupported));
    assert_eq!(
        sender_for(&result_of(ReturnKind::Unit), "text/csv"),
        Ok(ResponseDecoding::Empty)
    );
    assert_eq!(
        sender_for(&result_of(ReturnKind::Other), "application/xml"),
        Ok(ResponseDecoding::Xml)
    );
    assert!(sender_for(&ReturnSpec::Default, "application/json").is_err());
    assert!(sender_for(&ReturnSpec::Other, "application/json").is_err());
}

#[test]
fn resource_arguments_are_checked() {
    let r = parse_resource_args(&args(&[
        ("path", "/v1"),
        ("produces", "text/plain"),
        ("config_key", "svc"),
    ]))
    .unwrap();
    assert_eq!(r.path, "/v1");
    assert_eq!(r.consumes, "application/json");
    assert_eq!(r.produces, "text/plain");
    assert_eq!(r.config_key.as_deref(), Some("svc"));
    assert_eq!(
        parse_resource_args(&args(&[("config_key", "")])).err().unwrap(),
        "`config_key` must not be empty"
    );
    assert_eq!(
        parse_resource_args(&args(&[("base", "/x")])).err().unwrap(),
        "expected `path`, `consumes`, `produces`, or `config_key`"
    );
}

#[test]
fn media_types_are_validated() {
    assert_eq!(validate_media_type("application/json"), Ok("application/json".to_owned()));
    assert_eq!(
        validate_media_type("json"),
        Err("media types must use `type/subtype` syntax".to_owned())
    );
    let bad = Err("media types must be non-empty `type/subtype` values without whitespace".to_owned());
    assert_eq!(validate_media_type("/json"), bad);
    assert_eq!(validate_media_type("application/"), bad);
    assert_eq!(validate_media_type("text/plain; charset=utf-8"), bad);
    assert_eq!(validate_media_type("te;xt/plain"), bad);
    assert_eq!(validate_media_type("text/pl;ain"), Ok("text/pl;ain".to_owned()));
}

#[test]
fn path_parameters_must_match_placeholders() {
    let names = |v: &[&str]| v.iter().map(|s| s.to_string()).collect::<Vec<_>>();
    assert_eq!(validate_path_params("/a/{x}/{y}", &names(&["y", "x"])), Ok(()));
    assert_eq!(
        validate_path_params("/a/{x}/{y}", &names(&["x"])),
        Err("missing #[path(\"y\")] argument for path placeholder".to_owned())
    );
    assert_eq!(
        validate_path_params("/a/{x}", &names(&["x", "z"])),
        Err("#[path(\"z\")] does not match a path placeholder".to_owned())
    );
}

#[test]
fn paths_join_with_one_slash() {
    assert_eq!(join_paths("/users/", "/{id}"), "/users/{id}");
    assert_eq!(join_paths("", "items"), "/items");
    assert_eq!(join_paths("/users", ""), "/users");
    assert_eq!(join_paths("", ""), "/");
    assert!(has_unclosed_placeholder("/a/{b"));
    assert!(!has_unclosed_placeholder("/a/{b}"));
    assert_eq!(path_placeholders("/a/{}/{b}"), vec!["".to_owned(), "b".to_owned()]);
}

#[test]
fn path_templates_expand_with_encoded_values() {
    let bindings = args(&[("id", "a/b c"), ("name", "x")]);
    assert_eq!(
        expand_path("/users/{id}/{name}/{id}", &bindings),
        "/users/a%2Fb%20c/x/a%2Fb%20c"
    );
    assert_eq!(replace_all("aXbXc", "X", "--"), "a--b--c");
    assert_eq!(replace_all("aaa", "aa", "b"), "ba");
}

#[test]
fn base64_matches_the_standard_alphabet() {
    assert_eq!(base64_standard(b""), "");
    assert_eq!(base64_standard(b"f"), "Zg==");
    assert_eq!(base64_standard(b"fo"), "Zm8=");
    assert_eq!(base64_standard(b"foo"), "Zm9v");
    assert_eq!(base64_standard(b"catnap:secret"), "Y2F0bmFwOnNlY3JldA==");
    assert_eq!(base64_standard(&[0xfb, 0xff]), "+/8=");
}

#[test]
fn logging_redacts_credentials() {
    assert!(is_sensitive_header("authorization"));
    assert!(is_sensitive_header("set-cookie"));
    assert!(!is_sensitive_header("accept"));
    assert_eq!(logged_header_value("cookie", b"a=b"), "<redacted>");
    assert_eq!(logged_header_value("accept", b"text/plain"), "text/plain");
    assert_eq!(logged_header_value("x-bin", &[0xe2, 0x82, 0xac]), "<non-UTF-8>");
    assert_eq!(logged_body(b"hello"), "hello");
    assert_eq!(logged_body(&[0xff, 0xfe, 0x00]), "<3 non-UTF-8 bytes>");
    assert_eq!(decimal(1205), "1205");
}

struct UsersClient {
    client: RestClient<()>,
}

impl BuildFromConfig<()> for UsersClient {
    type BuildError = Error;

    fn build_from_config(config: RestClientConfig<()>) -> Result<Self, Error> {
        Ok(UsersClient {
            client: RestClient::from_config(config)?,
        })
    }
}

fn users_definition() -> Vec<MethodSpec> {
    vec![
        method(
            vec![attr(&["get"], lit(""))],
            vec![param("page", vec![attr(&["query"], lit("page"))])],
            result_of(ReturnKind::Other),
        ),
        method(
            vec![attr(&["get"], lit("/{id}"))],
            vec![param("id", vec![attr(&["path"], lit("id"))])],
            result_of(ReturnKind::Other),
        ),
        method(
            vec![attr(&["post"], lit(""))],
            vec![
                param("auth", vec![attr(&["header"], lit("Authorization"))]),
                param("user", vec![]),
            ],
            result_of(ReturnKind::Response),
        ),
        method(
            vec![
                attr(&["get"], lit("/{id}/name")),
                attr(&["catnap", "produces"], lit("text/plain")),
            ],
            vec![param("id", vec![attr(&["path"], lit("id"))])],
            result_of(ReturnKind::Text),
        ),
        method(
            vec![
                attr(&["post"], lit("/{id}/name")),
                attr(&["catnap", "consumes"], lit("text/plain")),
            ],
            vec![param("id", vec![attr(&["path"], lit("id"))]), param("name", vec![])],
            result_of(ReturnKind::Unit),
        ),
        method(
            vec![
                attr(&["post"], lit("/xml")),
                attr(&["catnap", "consumes"], lit("application/xml")),
                attr(&["catnap", "produces"], lit("application/xml")),
            ],
            vec![param("user", vec![])],
            result_of(ReturnKind::Other),
        ),
    ]
}

#[test]
fn generated_client_can_be_built() {
    let plan = match plan_rest_client(
        "Users",
        &args(&[("path", "/users"), ("produces", "application/json")]),
        &users_definition(),
    ) {
        Ok(plan) => plan,
        Err(errors) => panic!("definition should be accepted: {errors:?}"),
    };
    assert_eq!(plan.client_name, "UsersClient");
    assert_eq!(plan.methods.len(), 6);
    assert_eq!(plan.methods[3].response, ResponseDecoding::Text);
    assert_eq!(plan.methods[4].body, Some(("name".to_owned(), BodyEncoding::Text)));
    assert_eq!(plan.methods[5].response, ResponseDecoding::Xml);

    let client = RestClientBuilder::<UsersClient, ()>::new()
        .base_url("https://api.example.com")
        .unwrap()
        .header("User-Agent", "catnap-test")
        .unwrap()
        .build()
        .expect("client should build");
    assert_eq!(client.client.base_url().as_str(), "https://api.example.com/");
}

#[test]
fn generated_client_uses_query_param_style_for_collections() {
    let plan = accepted(
        &[],
        vec![method(
            vec![attr(&["get"], lit("/search"))],
            vec![param("tags", vec![attr(&["query"], lit("tag"))])],
            result_of(ReturnKind::Unit),
        )],
    );
    let search = &plan.methods[0];
    assert_eq!(search.query_params, args(&[("tag", "tags")]));

    let client = RestClientBuilder::<UsersClient, ()>::new()
        .base_url("http://127.0.0.1:8080")
        .unwrap()
        .query_param_style(QueryParamStyle::ArrayPairs)
        .build()
        .expect("client should build")
        .client;
    let request = client
        .request(http::Method::GET, &search.path)
        .unwrap()
        .query_params(&search.query_params[0].0, vec!["rust".to_owned(), "http".to_owned()]);
    let url = request.url();
    let url = url.as_str();
    assert_eq!(
        &url[url.find("/search").unwrap()..],
        "/search?tag%5B%5D=rust&tag%5B%5D=http"
    );
}

#[test]
fn joining_paths_is_associative() {
    let parts = ["", "/", "a", "/a/", "//b//", "c/d/", "/{id}"];
    for a in parts {
        for b in parts {
            for c in parts {
                assert_eq!(
                    join_paths(&join_paths(a, b), c),
                    join_paths(a, &join_paths(b, c)),
                    "{a:?} {b:?} {c:?}"
                );
            }
        }
    }
}

#[test]
fn base64_padding_matches_the_input_length() {
    for n in 0..10usize {
        let bytes: Vec<u8> = (0..n as u8).collect();
        let encoded = base64_standard(&bytes);
        assert_eq!(encoded.len(), 4 * ((n + 2) / 3));
        let pad = (3 - n % 3) % 3;
        assert!(encoded.ends_with(&"=".repeat(pad)));
        assert_eq!(encoded.matches('=').count(), pad);
    }
}

#[test]
fn verb_and_media_attributes_are_taken_out() {
    let mut attrs = vec![
        attr(&["catnap", "get"], lit("/{id}")),
        attr(&["catnap", "produces"], lit("text/plain")),
    ];
    assert_eq!(
        take_http_attr(&mut attrs),
        Ok(Some((HttpVerb::Get, "/{id}".to_owned())))
    );
    assert_eq!(attrs.len(), 1);
    assert_eq!(attrs[0].path, vec!["catnap".to_owned(), "produces".to_owned()]);
    assert_eq!(take_http_attr(&mut attrs), Ok(None));
    assert_eq!(attrs.len(), 1);
    assert_eq!(
        take_media_type_attr(&mut attrs, "produces"),
        Ok(Some("text/plain".to_owned()))
    );
    assert!(attrs.is_empty());

    let mut bad = vec![attr(&["consumes"], lit("json"))];
    assert!(take_media_type_attr(&mut bad, "consumes").is_err());
    assert_eq!(bad.len(), 1);
}
