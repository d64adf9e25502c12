//! `jrg://` URLs: what the `url` crate reads from text, checked for the
//! Jaringan scheme and a host, and the forms the protocol writes them in.

use vstd::prelude::*;
use crate::text;
use url::ParseError as UrlParseError;

verus! {

broadcast use vstd::string::group_string_axioms;

#[verifier::external_type_specification]
#[verifier::external_body]
pub struct ExUrlParseError(UrlParseError);

/// The parts of a URL as the `url` crate gives them.
#[derive(Debug, Clone)]
pub struct UrlParts {
    pub scheme: String,
    pub host: Option<String>,
    pub port: Option<u16>,
    pub path: String,
    pub query: Option<String>,
    pub fragment: Option<String>,
    /// The whole URL as the `url` crate writes it.
    pub serialization: String,
}

pub ghost struct UrlPartsV {
    pub scheme: Seq<char>,
    pub host: Option<Seq<char>>,
    pub port: Option<u16>,
    pub path: Seq<char>,
    pub query: Option<Seq<char>>,
    pub fragment: Option<Seq<char>>,
    pub serialization: Seq<char>,
}

pub open spec fn opt_view(o: Option<String>) -> Option<Seq<char>> {
    match o {
        Some(s) => Some(s@),
        None => None,
    }
}

impl View for UrlParts {
    type V = UrlPartsV;

    open spec fn view(&self) -> UrlPartsV {
        UrlPartsV {
            scheme: self.scheme@,
            host: opt_view(self.host),
            port: self.port,
            path: self.path@,
            query: opt_view(self.query),
            fragment: opt_view(self.fragment),
            serialization: self.serialization@,
        }
    }
}

/// What `url::Url::parse` reads from `input`, or `None` where it fails.
pub uninterp spec fn parsed_url(input: Seq<char>) -> Option<UrlPartsV>;

/// What `url::Url::join` gives for `target` against the URL that `base`
/// parses to, or `None` where either fails.
pub uninterp spec fn joined_url(base: Seq<char>, target: Seq<char>) -> Option<UrlPartsV>;

/// `url::Url::parse`, its result taken apart. The result is only named:
/// the WHATWG URL parser is not restated.
#[verifier::external_body]
fn parse_url(input: &str) -> (r: Result<UrlParts, UrlParseError>)
    ensures
        r is Ok <==> parsed_url(input@) is Some,
        r matches Ok(p) ==> parsed_url(input@) == Some(p@),
{
    match url::Url::parse(input) {
        Ok(u) => Ok(UrlParts {
            scheme: u.scheme().to_string(),
            host: u.host_str().map(str::to_string),
            port: u.port(),
            path: u.path().to_string(),
            query: u.query().map(str::to_string),
            fragment: u.fragment().map(str::to_string),
            serialization: u.as_str().to_string(),
        }),
        Err(e) => Err(e),
    }
}

/// `url::Url::join` of `target` onto the URL parsed from `base` (the `url`
/// crate reads a URL's own serialization back as the same URL), its result
/// taken apart. The result is only named.
#[verifier::external_body]
fn join_url(base: &str, target: &str) -> (r: Result<UrlParts, UrlParseError>)
    ensures
        r is Ok <==> joined_url(base@, target@) is Some,
        r matches Ok(p) ==> joined_url(base@, target@) == Some(p@),
{
    let joined = match url::Url::parse(base) { Ok(b) => b.join(target), Err(e) => Err(e) };
    match joined {
        Ok(u) => Ok(UrlParts {
            scheme: u.scheme().to_string(),
            host: u.host_str().map(str::to_string),
            port: u.port(),
            path: u.path().to_string(),
            query: u.query().map(str::to_string),
            fragment: u.fragment().map(str::to_string),
            serialization: u.as_str().to_string(),
        }),
        Err(e) => Err(e),
    }
}

/// Why text is not a Jaringan URL.
#[derive(Debug)]
pub enum UrlError {
    Parse(UrlParseError),
    UnsupportedScheme(String),
    MissingHost,
}

/// A `jrg://` URL with a host.
#[derive(Debug, Clone, PartialEq, Eq)]
pub struct JaringanUrl {
    serialization: String,
    host: String,
    port: Option<u16>,
    path: String,
    query: Option<String>,
    fragment: Option<String>,
}

pub ghost struct JaringanUrlV {
    pub serialization: Seq<char>,
    pub host: Seq<char>,
    pub port: Option<u16>,
    pub path: Seq<char>,
    pub query: Option<Seq<char>>,
    pub fragment: Option<Seq<char>>,
}

impl View for JaringanUrl {
    type V = JaringanUrlV;

    closed spec fn view(&self) -> JaringanUrlV {
        JaringanUrlV {
            serialization: self.serialization@,
            host: self.host@,
            port: self.port,
            path: self.path@,
            query: opt_view(self.query),
            fragment: opt_view(self.fragment),
        }
    }
}

/// The Jaringan URL that parsed parts make, or why they make none.
pub open spec fn jrg_url_of(p: UrlPartsV) -> Result<JaringanUrlV, UrlErrorV> {
    if p.scheme != "jrg"@ {
        Err(UrlErrorV::UnsupportedScheme(p.scheme))
    } else {
        match p.host {
            None => Err(UrlErrorV::MissingHost),
            Some(h) => Ok(
                JaringanUrlV {
                    serialization: p.serialization,
                    host: h,
                    port: p.port,
                    path: p.path,
                    query: p.query,
                    fragment: p.fragment,
                },
            ),
        }
    }
}

/// A `UrlError` as far as the library reads it.
pub ghost enum UrlErrorV {
    Parse,
    UnsupportedScheme(Seq<char>),
    MissingHost,
}

pub open spec fn url_error_view(e: UrlError) -> UrlErrorV {
    match e {
        UrlError::Parse(_) => UrlErrorV::Parse,
        UrlError::UnsupportedScheme(s) => UrlErrorV::UnsupportedScheme(s@),
        UrlError::MissingHost => UrlErrorV::MissingHost,
    }
}

/// What reading text as a Jaringan URL gives, in views.
pub open spec fn url_result(r: Result<JaringanUrl, UrlError>) -> Result<JaringanUrlV, UrlErrorV> {
    match r {
        Ok(u) => Ok(u@),
        Err(e) => Err(url_error_view(e)),
    }
}

/// The outcome of parsing, from what the `url` crate read.
pub open spec fn from_parsed(p: Option<UrlPartsV>) -> Result<JaringanUrlV, UrlErrorV> {
    match p {
        None => Err(UrlErrorV::Parse),
        Some(parts) => jrg_url_of(parts),
    }
}

/// `host:port`, or the host alone where the URL gives no port.
pub open spec fn authority_text(u: JaringanUrlV) -> Seq<char> {
    match u.port {
        Some(p) => u.host + seq![':'] + text::decimal(p as nat),
        None => u.host,
    }
}

impl JaringanUrl {
    /// A copy of this URL.
    pub fn duplicate(&self) -> (r: JaringanUrl)
        ensures
            r@ == self@,
    {
        JaringanUrl {
            serialization: self.serialization.clone(),
            host: self.host.clone(),
            port: self.port,
            path: self.path.clone(),
            query: crate::document::copy_opt(&self.query),
            fragment: crate::document::copy_opt(&self.fragment),
        }
    }

    /// Checks the scheme and the host of parsed parts.
    pub fn from_parts(p: UrlParts) -> (r: Result<JaringanUrl, UrlError>)
        ensures
            url_result(r) == jrg_url_of(p@),
    {
        if !text::chars_eq(text::chars_of(p.scheme.as_str()).as_slice(), text::chars_of("jrg").as_slice()) {
            return Err(UrlError::UnsupportedScheme(p.scheme));
        }
        match p.host {
            None => Err(UrlError::MissingHost),
            Some(h) => Ok(
                JaringanUrl {
                    serialization: p.serialization,
                    host: h,
                    port: p.port,
                    path: p.path,
                    query: p.query,
                    fragment: p.fragment,
                },
            ),
        }
    }

    /// Reads a Jaringan URL: text the `url` crate parses, with the `jrg`
    /// scheme and a host.
    pub fn parse(input: &str) -> (r: Result<JaringanUrl, UrlError>)
        ensures
            url_result(r) == from_parsed(parsed_url(input@)),
    {
        match parse_url(input) {
            Err(e) => Err(UrlError::Parse(e)),
            Ok(p) => Self::from_parts(p),
        }
    }

    /// The URL that `target` names when read against this one, as a link
    /// in a page at this URL would be.
    pub fn resolve(&self, target: &str) -> (r: Result<JaringanUrl, UrlError>)
        ensures
            url_result(r) == from_parsed(joined_url(self@.serialization, target@)),
    {
        match join_url(self.serialization.as_str(), target) {
            Err(e) => Err(UrlError::Parse(e)),
            Ok(p) => Self::from_parts(p),
        }
    }

    pub fn host(&self) -> (r: &str)
        ensures
            r@ == self@.host,
    {
        self.host.as_str()
    }

    pub fn path(&self) -> (r: &str)
        ensures
            r@ == self@.path,
    {
        self.path.as_str()
    }

    pub fn query(&self) -> (r: Option<&str>)
        ensures
            match self@.query {
                Some(q) => r matches Some(x) && x@ == q,
                None => r is None,
            },
    {
        match &self.query {
            Some(q) => Some(q.as_str()),
            None => None,
        }
    }

    pub fn fragment(&self) -> (r: Option<&str>)
        ensures
            match self@.fragment {
                Some(f) => r matches Some(x) && x@ == f,
                None => r is None,
            },
    {
        match &self.fragment {
            Some(f) => Some(f.as_str()),
            None => None,
        }
    }

    pub fn port(&self) -> (r: Option<u16>)
        ensures
            r == self@.port,
    {
        self.port
    }

    /// The port, or 7070 where the URL gives none.
    pub fn port_or_default(&self) -> (r: u16)
        ensures
            r == match self@.port {
                Some(p) => p,
                None => 7070u16,
            },
    {
        match self.port {
            Some(p) => p,
            None => 7070,
        }
    }

    /// `host:port`, or the host alone where the URL gives no port.
    pub fn authority(&self) -> (r: String)
        ensures
            r@ == authority_text(self@),
    {
        let mut out = text::chars_of(self.host.as_str());
        match self.port {
            Some(p) => {
                out.push(':');
                text::push_decimal(&mut out, p as usize);
            },
            None => {},
        }
        text::string_from(out.as_slice())
    }

    /// The path, then `?query` and `#fragment` where the URL has them.
    pub fn request_target(&self) -> (r: String)
        ensures
            r@ == self@.path + match self@.query {
                Some(q) => seq!['?'] + q,
                None => Seq::empty(),
            } + match self@.fragment {
                Some(f) => seq!['#'] + f,
                None => Seq::empty(),
            },
    {
        let mut out = text::chars_of(self.path.as_str());
        match &self.query {
            Some(q) => {
                out.push('?');
                text::push_str(&mut out, q.as_str());
            },
            None => {},
        }
        match &self.fragment {
            Some(f) => {
                out.push('#');
                text::push_str(&mut out, f.as_str());
            },
            None => {},
        }
        text::string_from(out.as_slice())
    }

    /// The whole URL as text.
    pub fn as_str(&self) -> (r: &str)
        ensures
            r@ == self@.serialization,
    {
        self.serialization.as_str()
    }
}

} // verus!
