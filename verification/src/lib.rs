//! Verified core of catnap, a trait-first REST client: client configuration
//! and its environment-backed loading, default headers and Basic
//! authentication, request URLs and query parameters, path templates and
//! the checking and planning of client definitions.

pub mod text;
pub mod base64;
pub mod url_model;
pub mod percent;
pub mod headers;
pub mod error;
pub mod env_config;
pub mod config;
pub mod builder;
pub mod client;
pub mod paths;
pub mod resource;
pub mod logging;
pub mod laws;

pub use builder::{BuildFromConfig, RestClientBuilder};
pub use client::{default_response_exception, RequestBuilder, ResponseExceptionContext, RestClient};
pub use config::{QueryParamStyle, ResponseExceptionMapper, RestClientConfig};
pub use env_config::EnvSnapshot;
pub use error::{Error, MediaOperation};
pub use percent::encode_path_segment;
pub use url_model::{ParsedUrl, UrlError};
