//! Errors produced while configuring a client or preparing a request.

use vstd::prelude::*;

use crate::headers::{invalid_header_value_message, invalid_header_value_text};
use crate::logging::{decimal, decimal_spec};
use crate::text::{owned, push_str};
use crate::url_model::UrlError;

verus! {

/// Operation that required media type support.
#[derive(Debug, Clone, Copy, PartialEq, Eq, Structural)]
pub enum MediaOperation {
    /// Serializing a request body.
    RequestSerialization,
    /// Deserializing a response body.
    ResponseDeserialization,
}

impl MediaOperation {
    /// The stable description of the operation.
    pub open spec fn text(self) -> Seq<char> {
        match self {
            MediaOperation::RequestSerialization => "request body serialization"@,
            MediaOperation::ResponseDeserialization => "response deserialization"@,
        }
    }

    /// The stable description of the operation, as shown in error messages.
    pub fn to_string(&self) -> (s: String)
        ensures
            s@ == self.text(),
    {
        match self {
            MediaOperation::RequestSerialization => owned("request body serialization"),
            MediaOperation::ResponseDeserialization => owned("response deserialization"),
        }
    }
}

/// Error type returned while building a client or preparing a request.
#[derive(Debug)]
pub enum Error {
    /// A client was built without configuring a base URL.
    MissingBaseUrl,
    /// The configured base URL could not be parsed.
    InvalidBaseUrl(UrlError),
    /// A request path could not be joined to the configured base URL.
    InvalidRequestUrl {
        /// The path passed to the request builder.
        path: String,
        /// The URL parse error produced while joining the path.
        source: UrlError,
    },
    /// A configured default header name was invalid.
    InvalidHeaderName(String),
    /// A configured default header value was invalid.
    InvalidHeaderValue {
        /// Header name associated with the invalid value.
        name: String,
        /// The invalid header value error.
        source: http::header::InvalidHeaderValue,
    },
    /// A config value could not be parsed.
    InvalidConfigValue {
        /// Config key that supplied the invalid value.
        key: String,
        /// Invalid config value.
        value: String,
        /// Human-readable parse failure.
        message: String,
    },
    /// The selected request or response media type is not supported.
    UnsupportedMediaType {
        /// The operation that required media type support.
        operation: MediaOperation,
        /// The unsupported media type.
        media_type: String,
    },
    /// A typed request returned an HTTP status `>= 400`.
    Http {
        /// The HTTP error status code.
        status: u16,
        /// The response body decoded as UTF-8 lossily.
        body: String,
    },
}

/// The canonical reason phrase that `http::StatusCode::canonical_reason`
/// gives for a status code, if it has one.
pub uninterp spec fn canonical_reason_spec(status: u16) -> Option<Seq<char>>;

/// The canonical reason phrase of a status code from 100 to 999
/// (`http::StatusCode::canonical_reason`).
#[verifier::external_body]
fn canonical_reason(status: u16) -> (r: Option<String>)
    requires
        100 <= status <= 999,
    ensures
        r matches Some(s) ==> canonical_reason_spec(status) == Some(s@),
        r is None ==> canonical_reason_spec(status) is None,
{
    match http::StatusCode::from_u16(status) {
        Ok(code) => code.canonical_reason().map(|reason| reason.to_owned()),
        Err(_) => None,
    }
}

/// How `http::StatusCode` displays a status code: the number, a space and
/// the canonical reason phrase (`<unknown status code>` without one). A
/// number outside 100..=999 is no status code and shows as the number alone.
pub open spec fn status_display_spec(status: u16) -> Seq<char> {
    if 100 <= status <= 999 {
        decimal_spec(status as nat) + " "@ + match canonical_reason_spec(status) {
            Some(reason) => reason,
            None => "<unknown status code>"@,
        }
    } else {
        decimal_spec(status as nat)
    }
}

/// Renders a status code as `http::StatusCode`'s `Display` does.
pub fn status_display(status: u16) -> (s: String)
    ensures
        s@ == status_display_spec(status),
{
    let mut s = decimal(status as usize);
    if 100 <= status && status <= 999 {
        push_str(&mut s, " ");
        match canonical_reason(status) {
            Some(reason) => push_str(&mut s, reason.as_str()),
            None => push_str(&mut s, "<unknown status code>"),
        }
    }
    s
}

/// The message of an error; a URL error shows the text of its parse error.
pub open spec fn error_message_spec(e: Error) -> Seq<char> {
    match e {
        Error::MissingBaseUrl => "base URL is required"@,
        Error::InvalidBaseUrl(source) => "invalid base URL: "@ + source@,
        Error::InvalidRequestUrl { path, source } => "invalid request URL path `"@ + path@ + "`: "@ + source@,
        Error::InvalidHeaderName(name) => "invalid HTTP header name `"@ + name@ + "`"@,
        Error::InvalidHeaderValue { name, .. } => "invalid HTTP header value for `"@ + name@ + "`: "@
            + invalid_header_value_message(),
        Error::InvalidConfigValue { key, value, message } => "invalid config value `"@ + value@ + "` for `"@
            + key@ + "`: "@ + message@,
        Error::UnsupportedMediaType { operation, media_type } => "unsupported media type `"@ + media_type@
            + "` for "@ + operation.text(),
        Error::Http { status, body } => "HTTP "@ + status_display_spec(status) + ": "@ + body@,
    }
}

impl Error {
    /// The human-readable message of the error (its display text).
    pub fn message(&self) -> (s: String)
        ensures
            s@ == error_message_spec(*self),
    {
        match self {
            Error::MissingBaseUrl => {
                let s = owned("base URL is required");
                assert(s@ == error_message_spec(*self));
                s
            },
            Error::InvalidBaseUrl(source) => {
                let mut s = owned("invalid base URL: ");
                push_str(&mut s, source.text());
                assert(s@ == error_message_spec(*self));
                s
            },
            Error::InvalidRequestUrl { path, source } => {
                let mut s = owned("invalid request URL path `");
                push_str(&mut s, path.as_str());
                push_str(&mut s, "`: ");
                push_str(&mut s, source.text());
                assert(s@ == error_message_spec(*self));
                s
            },
            Error::InvalidHeaderName(name) => {
                let mut s = owned("invalid HTTP header name `");
                push_str(&mut s, name.as_str());
                push_str(&mut s, "`");
                assert(s@ == error_message_spec(*self));
                s
            },
            Error::InvalidHeaderValue { name, source } => {
                let mut s = owned("invalid HTTP header value for `");
                push_str(&mut s, name.as_str());
                push_str(&mut s, "`: ");
                let t = invalid_header_value_text(source);
                push_str(&mut s, t.as_str());
                assert(s@ == error_message_spec(*self));
                s
            },
            Error::InvalidConfigValue { key, value, message } => {
                let mut s = owned("invalid config value `");
                push_str(&mut s, value.as_str());
                push_str(&mut s, "` for `");
                push_str(&mut s, key.as_str());
                push_str(&mut s, "`: ");
                push_str(&mut s, message.as_str());
                assert(s@ == error_message_spec(*self));
                s
            },
            Error::UnsupportedMediaType { operation, media_type } => {
                let mut s = owned("unsupported media type `");
                push_str(&mut s, media_type.as_str());
                push_str(&mut s, "` for ");
                let t = operation.to_string();
                push_str(&mut s, t.as_str());
                assert(s@ == error_message_spec(*self));
                s
            },
            Error::Http { status, body } => {
                let mut s = owned("HTTP ");
                let t = status_display(*status);
                push_str(&mut s, t.as_str());
                push_str(&mut s, ": ");
                push_str(&mut s, body.as_str());
                assert(s@ == error_message_spec(*self));
                s
            },
        }
    }
}

} // verus!
