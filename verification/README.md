# catnap

A trait-first REST client whose decision-making core is verified with Verus.

A client is described as a set of methods with HTTP attributes (verb, path,
media types, path/query/header parameters). The library checks such a
description and plans every request, keeps the client configuration (base
URL, default headers, Basic authentication, redirects, proxy, timeouts,
query parameter style, response exception mappers), loads that
configuration from MicroProfile-style and shell-friendly environment keys,
and builds request URLs and query strings.

## Layout

- `src/` — the verified library.
  - `resource.rs`: checking a client description and planning its methods.
  - `paths.rs`: path placeholders, joining and expanding path templates.
  - `config.rs`, `env_config.rs`: configuration and environment loading.
  - `builder.rs`, `client.rs`: the builder, the runtime client, request URLs
    and query parameters, the default mapping of error statuses.
  - `headers.rs`, `base64.rs`, `percent.rs`: header rules, Basic
    authentication, path segment encoding.
  - `error.rs`, `logging.rs`: error messages and what logging shows.
  - `url_model.rs`, `text.rs`: the `url` crate and string helpers.
  - `laws.rs`: properties that relate several functions.
- `tests/` — tests of the library on concrete values.
- `app/` — the runtime around the library: the `reqwest` transport, serde
  bodies, the process environment, response exception mapper closures and
  `tracing` output.
