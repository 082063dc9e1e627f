//! URLs as the library sees them: a parsed `url::Url` together with its
//! serialization, which is the value contracts speak of.
//!
//! Every operation of the `url` crate that the library uses is a function of
//! the serializations involved, so each is given a name over serializations.
//! A `ParsedUrl` value is only ever produced by the functions of this module, which
//! keep `text` equal to the serialization of `inner`.

use vstd::prelude::*;

verus! {

#[verifier::external_type_specification]
#[verifier::external_body]
pub struct ExUrlInner(url::Url);

#[verifier::external_type_specification]
#[verifier::external_body]
pub struct ExUrlParseError(url::ParseError);

/// What `url::Url::parse` gives for an input: the serialization of the
/// parsed URL, or the text (`Display`) of the parse error.
pub uninterp spec fn url_parse_result(input: Seq<char>) -> Result<Seq<char>, Seq<char>>;

/// The serialization that parsing an input gives, or `None` when parsing
/// fails.
pub open spec fn url_parse_spec(input: Seq<char>) -> Option<Seq<char>> {
    match url_parse_result(input) {
        Ok(u) => Some(u),
        Err(_) => None,
    }
}

/// The text of the error that parsing an input gives, when it fails.
pub open spec fn url_parse_error_spec(input: Seq<char>) -> Seq<char> {
    match url_parse_result(input) {
        Ok(_) => Seq::empty(),
        Err(e) => e,
    }
}

/// What `url::Url::path` gives for the URL with the given serialization.
pub uninterp spec fn url_path_spec(url: Seq<char>) -> Seq<char>;

/// The serialization that `url::Url::set_path` leaves for the URL with the
/// given serialization and the given new path.
pub uninterp spec fn url_set_path_spec(url: Seq<char>, path: Seq<char>) -> Seq<char>;

/// What `url::Url::join` gives when joining `input` onto the URL with
/// serialization `base`: the joined serialization, or the text (`Display`)
/// of the parse error.
pub uninterp spec fn url_join_result(base: Seq<char>, input: Seq<char>) -> Result<Seq<char>, Seq<char>>;

/// The serialization that joining gives, or `None` when joining fails.
pub open spec fn url_join_spec(base: Seq<char>, input: Seq<char>) -> Option<Seq<char>> {
    match url_join_result(base, input) {
        Ok(u) => Some(u),
        Err(_) => None,
    }
}

/// The text of the error that joining gives, when it fails.
pub open spec fn url_join_error_spec(base: Seq<char>, input: Seq<char>) -> Seq<char> {
    match url_join_result(base, input) {
        Ok(_) => Seq::empty(),
        Err(e) => e,
    }
}

/// A URL parse error of the `url` crate together with its text.
#[derive(Debug)]
pub struct UrlError {
    source: url::ParseError,
    text: String,
}

impl View for UrlError {
    type V = Seq<char>;

    /// The error's text (its `Display`).
    closed spec fn view(&self) -> Seq<char> {
        self.text@
    }
}

impl UrlError {
    /// The `url::ParseError` held.
    pub closed spec fn source_spec(&self) -> url::ParseError {
        self.source
    }

    /// The `url::ParseError` held.
    pub fn source(&self) -> (e: &url::ParseError)
        ensures
            *e == self.source_spec(),
    {
        &self.source
    }

    /// The error's text, as `url` displays it.
    pub fn text(&self) -> (s: &str)
        ensures
            s@ == self@,
    {
        self.text.as_str()
    }
}

/// The serialization after appending the given name/value pairs to the
/// query of the URL with the given serialization, form-urlencoded
/// (`url::Url::query_pairs_mut` followed by `extend_pairs`).
pub uninterp spec fn url_extend_query_spec(url: Seq<char>, pairs: Seq<(Seq<char>, Seq<char>)>) -> Seq<char>;

/// A parsed absolute URL.
#[derive(Debug)]
pub struct ParsedUrl {
    inner: url::Url,
    text: String,
}

impl View for ParsedUrl {
    type V = Seq<char>;

    /// The URL's serialization.
    closed spec fn view(&self) -> Seq<char> {
        self.text@
    }
}

impl Clone for ParsedUrl {
    /// Copies the URL (`url::Url::clone`); the copy has the same serialization.
    #[verifier::external_body]
    fn clone(&self) -> (r: Self)
        ensures
            r@ == self@,
    {
        ParsedUrl { inner: self.inner.clone(), text: self.text.clone() }
    }
}

impl ParsedUrl {
    /// Parses an absolute URL (`url::Url::parse`).
    ///
    /// The result is the serialization that `url_parse_result` names, or
    /// the error with the text it names, one of the fixed messages of
    /// `url::ParseError`.
    #[verifier::external_body]
    pub fn parse(input: &str) -> (r: Result<ParsedUrl, UrlError>)
        ensures
            r is Ok <==> url_parse_spec(input@) is Some,
            r matches Ok(u) ==> url_parse_spec(input@) == Some(u@),
            r matches Err(e) ==> (url_parse_result(input@) matches Err(t) && t == e@),
            r matches Err(e) ==> url_error_messages().contains(e@),
    {
        match url::Url::parse(input) {
            Ok(inner) => {
                let text = inner.as_str().to_owned();
                Ok(ParsedUrl { inner, text })
            }
            Err(source) => Err(UrlError { text: source.to_string(), source }),
        }
    }

    /// The serialization of the URL.
    pub fn as_str(&self) -> (s: &str)
        ensures
            s@ == self@,
    {
        self.text.as_str()
    }

    /// The parsed URL held, whose serialization is `self@`.
    pub closed spec fn url_spec(&self) -> url::Url {
        self.inner
    }

    /// The underlying `url::Url`, for handing to the HTTP transport.
    pub fn as_url(&self) -> (u: &url::Url)
        ensures
            *u == self.url_spec(),
    {
        &self.inner
    }

    /// The path component of the URL (`url::Url::path`).
    #[verifier::external_body]
    pub fn path(&self) -> (p: String)
        ensures
            p@ == url_path_spec(self@),
    {
        self.inner.path().to_owned()
    }

    /// Replaces the path component (`url::Url::set_path`).
    #[verifier::external_body]
    pub fn set_path(&mut self, path: &str)
        ensures
            final(self)@ == url_set_path_spec(old(self)@, path@),
    {
        self.inner.set_path(path);
        self.text = self.inner.as_str().to_owned();
    }

    /// Resolves `input` against this URL (`url::Url::join`): the
    /// serialization that `url_join_result` names, or the error with the
    /// text it names, one of the fixed messages of `url::ParseError`.
    #[verifier::external_body]
    pub fn join(&self, input: &str) -> (r: Result<ParsedUrl, UrlError>)
        ensures
            r is Ok <==> url_join_spec(self@, input@) is Some,
            r matches Ok(u) ==> url_join_spec(self@, input@) == Some(u@),
            r matches Err(e) ==> (url_join_result(self@, input@) matches Err(t) && t == e@),
            r matches Err(e) ==> url_error_messages().contains(e@),
    {
        match self.inner.join(input) {
            Ok(inner) => {
                let text = inner.as_str().to_owned();
                Ok(ParsedUrl { inner, text })
            }
            Err(source) => Err(UrlError { text: source.to_string(), source }),
        }
    }

    /// Appends name/value pairs to the query, form-urlencoded
    /// (`url::form_urlencoded::Serializer::extend_pairs` on
    /// `url::Url::query_pairs_mut`).
    #[verifier::external_body]
    pub fn extend_query_pairs(&mut self, pairs: &Vec<(String, String)>)
        ensures
            final(self)@ == url_extend_query_spec(old(self)@, pairs_view(pairs@)),
    {
        self.inner.query_pairs_mut().extend_pairs(pairs.iter().map(|(k, v)| (k.as_str(), v.as_str())));
        self.text = self.inner.as_str().to_owned();
    }
}

/// The character sequences of a list of string pairs.
pub open spec fn pairs_view(pairs: Seq<(String, String)>) -> Seq<(Seq<char>, Seq<char>)> {
    pairs.map_values(|p: (String, String)| (p.0@, p.1@))
}

/// The messages that `url::ParseError` displays, one per kind of error.
pub open spec fn url_error_messages() -> Seq<Seq<char>> {
    seq![
        "empty host"@,
        "invalid international domain name"@,
        "invalid port number"@,
        "invalid IPv4 address"@,
        "invalid IPv6 address"@,
        "invalid domain character"@,
        "relative URL without a base"@,
        "relative URL with a cannot-be-a-base base"@,
        "a cannot-be-a-base URL doesn’t have a host to set"@,
        "URLs more than 4 GB are not supported"@,
    ]
}

} // verus!
