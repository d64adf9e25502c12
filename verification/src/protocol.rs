//! The Jaringan wire protocol: status codes, content types, response tags,
//! encryption capabilities, and the text form of a response.

use vstd::prelude::*;
use vstd::string::StrSliceExecFns;
use crate::text;
use crate::jrg_url::{JaringanUrl, UrlError};

verus! {

broadcast use vstd::string::group_string_axioms;

#[derive(Debug, Clone, Copy, PartialEq, Eq, Structural)]
pub enum RequestMethod {
    Get,
    Post,
}

impl RequestMethod {
    pub open spec fn name(self) -> Seq<char> {
        match self {
            RequestMethod::Get => "GET"@,
            RequestMethod::Post => "POST"@,
        }
    }

    pub fn as_str(self) -> (r: &'static str)
        ensures
            r@ == self.name(),
    {
        match self {
            RequestMethod::Get => "GET",
            RequestMethod::Post => "POST",
        }
    }

    /// The method a request line names, written exactly.
    pub fn parse(input: &str) -> (r: Option<RequestMethod>)
        ensures
            r == (if input@ == "GET"@ {
                Some(RequestMethod::Get)
            } else if input@ == "POST"@ {
                Some(RequestMethod::Post)
            } else {
                None::<RequestMethod>
            }),
    {
        let c = text::chars_of(input);
        if text::chars_eq(c.as_slice(), text::chars_of("GET").as_slice()) {
            Some(RequestMethod::Get)
        } else if text::chars_eq(c.as_slice(), text::chars_of("POST").as_slice()) {
            Some(RequestMethod::Post)
        } else {
            None
        }
    }
}

/// A request for a page: a `GET`, or a `POST` of a form's body, with the
/// capability token some actions need.
#[derive(Debug, Clone, PartialEq, Eq)]
pub struct Request {
    pub method: RequestMethod,
    pub url: JaringanUrl,
    pub body: String,
    pub action_token: Option<String>,
}

impl Request {
    pub fn new(url: JaringanUrl) -> (r: Request)
        ensures
            r.method == RequestMethod::Get,
            r.url == url,
            r.body@.len() == 0,
            r.action_token is None,
    {
        Request { method: RequestMethod::Get, url, body: String::new(), action_token: None }
    }

    pub fn post(url: JaringanUrl, body: String) -> (r: Request)
        ensures
            r.method == RequestMethod::Post,
            r.url == url,
            r.body == body,
            r.action_token is None,
    {
        Request { method: RequestMethod::Post, url, body, action_token: None }
    }

    pub fn with_action_token(self, token: String) -> (r: Request)
        ensures
            r == (Request { action_token: Some(token), ..self }),
    {
        let mut r = self;
        r.action_token = Some(token);
        r
    }
}

#[derive(Debug, Clone, Copy, PartialEq, Eq)]
pub enum StatusCode {
    Success,
    MovedPermanently,
    Found,
    SeeOther,
    NotModified,
    BadRequest,
    Forbidden,
    NotFound,
    Conflict,
    Gone,
    UnprocessableContent,
    TooManyRequests,
    ServerError,
    NotImplemented,
    BadGateway,
    ServiceUnavailable,
}

/// The status with a numeric code, if the protocol knows it.
pub open spec fn status_of(code: u16) -> Option<StatusCode> {
    if code == 200 {
        Some(StatusCode::Success)
    } else if code == 301 {
        Some(StatusCode::MovedPermanently)
    } else if code == 302 {
        Some(StatusCode::Found)
    } else if code == 303 {
        Some(StatusCode::SeeOther)
    } else if code == 304 {
        Some(StatusCode::NotModified)
    } else if code == 400 {
        Some(StatusCode::BadRequest)
    } else if code == 403 {
        Some(StatusCode::Forbidden)
    } else if code == 404 {
        Some(StatusCode::NotFound)
    } else if code == 409 {
        Some(StatusCode::Conflict)
    } else if code == 410 {
        Some(StatusCode::Gone)
    } else if code == 422 {
        Some(StatusCode::UnprocessableContent)
    } else if code == 429 {
        Some(StatusCode::TooManyRequests)
    } else if code == 500 {
        Some(StatusCode::ServerError)
    } else if code == 501 {
        Some(StatusCode::NotImplemented)
    } else if code == 502 {
        Some(StatusCode::BadGateway)
    } else if code == 503 {
        Some(StatusCode::ServiceUnavailable)
    } else {
        None
    }
}

impl StatusCode {
    pub open spec fn code(self) -> u16 {
        match self {
            StatusCode::Success => 200,
            StatusCode::MovedPermanently => 301,
            StatusCode::Found => 302,
            StatusCode::SeeOther => 303,
            StatusCode::NotModified => 304,
            StatusCode::BadRequest => 400,
            StatusCode::Forbidden => 403,
            StatusCode::NotFound => 404,
            StatusCode::Conflict => 409,
            StatusCode::Gone => 410,
            StatusCode::UnprocessableContent => 422,
            StatusCode::TooManyRequests => 429,
            StatusCode::ServerError => 500,
            StatusCode::NotImplemented => 501,
            StatusCode::BadGateway => 502,
            StatusCode::ServiceUnavailable => 503,
        }
    }

    pub open spec fn reason(self) -> Seq<char> {
        match self {
            StatusCode::Success => "OK"@,
            StatusCode::MovedPermanently => "Moved Permanently"@,
            StatusCode::Found => "Found"@,
            StatusCode::SeeOther => "See Other"@,
            StatusCode::NotModified => "Not Modified"@,
            StatusCode::BadRequest => "Bad Request"@,
            StatusCode::Forbidden => "Forbidden"@,
            StatusCode::NotFound => "Not Found"@,
            StatusCode::Conflict => "Conflict"@,
            StatusCode::Gone => "Gone"@,
            StatusCode::UnprocessableContent => "Unprocessable Content"@,
            StatusCode::TooManyRequests => "Too Many Requests"@,
            StatusCode::ServerError => "Internal Server Error"@,
            StatusCode::NotImplemented => "Not Implemented"@,
            StatusCode::BadGateway => "Bad Gateway"@,
            StatusCode::ServiceUnavailable => "Service Unavailable"@,
        }
    }

    pub fn from_u16(code: u16) -> (r: Option<StatusCode>)
        ensures
            r == status_of(code),
    {
        match code {
            200 => Some(StatusCode::Success),
            301 => Some(StatusCode::MovedPermanently),
            302 => Some(StatusCode::Found),
            303 => Some(StatusCode::SeeOther),
            304 => Some(StatusCode::NotModified),
            400 => Some(StatusCode::BadRequest),
            403 => Some(StatusCode::Forbidden),
            404 => Some(StatusCode::NotFound),
            409 => Some(StatusCode::Conflict),
            410 => Some(StatusCode::Gone),
            422 => Some(StatusCode::UnprocessableContent),
            429 => Some(StatusCode::TooManyRequests),
            500 => Some(StatusCode::ServerError),
            501 => Some(StatusCode::NotImplemented),
            502 => Some(StatusCode::BadGateway),
            503 => Some(StatusCode::ServiceUnavailable),
            _ => None,
        }
    }

    pub fn as_u16(self) -> (r: u16)
        ensures
            r == self.code(),
    {
        match self {
            StatusCode::Success => 200,
            StatusCode::MovedPermanently => 301,
            StatusCode::Found => 302,
            StatusCode::SeeOther => 303,
            StatusCode::NotModified => 304,
            StatusCode::BadRequest => 400,
            StatusCode::Forbidden => 403,
            StatusCode::NotFound => 404,
            StatusCode::Conflict => 409,
            StatusCode::Gone => 410,
            StatusCode::UnprocessableContent => 422,
            StatusCode::TooManyRequests => 429,
            StatusCode::ServerError => 500,
            StatusCode::NotImplemented => 501,
            StatusCode::BadGateway => 502,
            StatusCode::ServiceUnavailable => 503,
        }
    }

    pub fn reason_phrase(self) -> (r: &'static str)
        ensures
            r@ == self.reason(),
    {
        match self {
            StatusCode::Success => "OK",
            StatusCode::MovedPermanently => "Moved Permanently",
            StatusCode::Found => "Found",
            StatusCode::SeeOther => "See Other",
            StatusCode::NotModified => "Not Modified",
            StatusCode::BadRequest => "Bad Request",
            StatusCode::Forbidden => "Forbidden",
            StatusCode::NotFound => "Not Found",
            StatusCode::Conflict => "Conflict",
            StatusCode::Gone => "Gone",
            StatusCode::UnprocessableContent => "Unprocessable Content",
            StatusCode::TooManyRequests => "Too Many Requests",
            StatusCode::ServerError => "Internal Server Error",
            StatusCode::NotImplemented => "Not Implemented",
            StatusCode::BadGateway => "Bad Gateway",
            StatusCode::ServiceUnavailable => "Service Unavailable",
        }
    }
}

/// Every status reads back from its own code.
pub proof fn lemma_status_code_round_trip(s: StatusCode)
    ensures
        status_of(s.code()) == Some(s),
{
}

/// A code that names a status is that status's code.
pub proof fn lemma_code_status_round_trip(code: u16)
    ensures
        status_of(code) matches Some(s) ==> s.code() == code,
{
}

#[derive(Debug, Clone, Copy, PartialEq, Eq)]
pub enum ContentType {
    JaringanPage,
    PlainText,
    JrgStream,
}

/// The content type a media type (without parameters) names.
pub open spec fn media_type(m: Seq<char>) -> Option<ContentType> {
    if m == "text/jrg"@ || m == "text/jaringan"@ {
        Some(ContentType::JaringanPage)
    } else if m == "text/plain"@ {
        Some(ContentType::PlainText)
    } else if m == "text/jrg-stream"@ {
        Some(ContentType::JrgStream)
    } else {
        None
    }
}

/// The part of a header value before its first `;`, trimmed.
pub open spec fn media_part(s: Seq<char>) -> Seq<char> {
    text::trim(s.take(text::char_from(s, ';', 0)))
}

impl ContentType {
    pub open spec fn header(self) -> Seq<char> {
        match self {
            ContentType::JaringanPage => "text/jrg; charset=utf-8"@,
            ContentType::PlainText => "text/plain; charset=utf-8"@,
            ContentType::JrgStream => "text/jrg-stream; charset=utf-8"@,
        }
    }

    /// The content type of a `Content-Type` value; parameters are ignored.
    pub fn from_header(input: &str) -> (r: Option<ContentType>)
        ensures
            r == media_type(media_part(input@)),
    {
        let cs = text::chars_of(input);
        proof {
            text::lemma_char_from(cs@, ';', 0);
        }
        let k = text::find_char(cs.as_slice(), ';', 0);
        let head = text::slice_of(cs.as_slice(), 0, k);
        assert(head@ =~= input@.take(k as int));
        let m = text::trimmed(head.as_slice());
        if text::chars_eq(m.as_slice(), text::chars_of("text/jrg").as_slice()) || text::chars_eq(
            m.as_slice(),
            text::chars_of("text/jaringan").as_slice(),
        ) {
            Some(ContentType::JaringanPage)
        } else if text::chars_eq(m.as_slice(), text::chars_of("text/plain").as_slice()) {
            Some(ContentType::PlainText)
        } else if text::chars_eq(m.as_slice(), text::chars_of("text/jrg-stream").as_slice()) {
            Some(ContentType::JrgStream)
        } else {
            None
        }
    }

    pub fn as_str(self) -> (r: &'static str)
        ensures
            r@ == self.header(),
    {
        match self {
            ContentType::JaringanPage => "text/jrg; charset=utf-8",
            ContentType::PlainText => "text/plain; charset=utf-8",
            ContentType::JrgStream => "text/jrg-stream; charset=utf-8",
        }
    }
}

/// The content type reads back from its own header value.
pub proof fn lemma_content_type_round_trip(t: ContentType)
    ensures
        media_type(media_part(t.header())) == Some(t),
{
    reveal_strlit("text/jrg; charset=utf-8");
    reveal_strlit("text/plain; charset=utf-8");
    reveal_strlit("text/jrg-stream; charset=utf-8");
    reveal_strlit("text/jrg");
    reveal_strlit("text/jaringan");
    reveal_strlit("text/plain");
    reveal_strlit("text/jrg-stream");
    let h = t.header();
    let k: int = match t {
        ContentType::JaringanPage => 8,
        ContentType::PlainText => 10,
        ContentType::JrgStream => 15,
    };
    assert(h[k] == ';');
    assert forall|j: int| 0 <= j < k implies h[j] != ';' by {}
    text::lemma_char_from(h, ';', 0);
    assert(text::char_from(h, ';', 0) == k);
    text::lemma_trim_plain(h.take(k));
    match t {
        ContentType::JaringanPage => assert(h.take(k) =~= "text/jrg"@),
        ContentType::PlainText => assert(h.take(k) =~= "text/plain"@),
        ContentType::JrgStream => {
            assert(h.take(k) =~= "text/jrg-stream"@);
            assert(h.take(k) != "text/jrg"@);
        },
    }
}

#[derive(Debug, Clone, PartialEq, Eq)]
pub enum ResponseTag {
    Redirect { target: String },
    /// The connection stays open for blocks sent one at a time.
    Stream,
    /// The server's ed25519 public key: `Tag-Key: <key-id> ed25519:<base64>`.
    Key { key_id: String, key_base64: String },
    /// The content type of the HTTP response a page was made from.
    ContentType { value: String },
}

pub ghost enum ResponseTagV {
    Redirect { target: Seq<char> },
    Stream,
    Key { key_id: Seq<char>, key_base64: Seq<char> },
    ContentType { value: Seq<char> },
}

impl View for ResponseTag {
    type V = ResponseTagV;

    open spec fn view(&self) -> ResponseTagV {
        match self {
            ResponseTag::Redirect { target } => ResponseTagV::Redirect { target: target@ },
            ResponseTag::Stream => ResponseTagV::Stream,
            ResponseTag::Key { key_id, key_base64 } => ResponseTagV::Key {
                key_id: key_id@,
                key_base64: key_base64@,
            },
            ResponseTag::ContentType { value } => ResponseTagV::ContentType { value: value@ },
        }
    }
}

pub open spec fn tags_view(v: Seq<ResponseTag>) -> Seq<ResponseTagV> {
    v.map_values(|t: ResponseTag| t@)
}

#[derive(Debug, Clone, PartialEq, Eq)]
pub struct Response {
    pub status: StatusCode,
    pub content_type: ContentType,
    pub tags: Vec<ResponseTag>,
    pub body: String,
}

pub ghost struct ResponseV {
    pub status: StatusCode,
    pub content_type: ContentType,
    pub tags: Seq<ResponseTagV>,
    pub body: Seq<char>,
}

impl View for Response {
    type V = ResponseV;

    open spec fn view(&self) -> ResponseV {
        ResponseV {
            status: self.status,
            content_type: self.content_type,
            tags: tags_view(self.tags@),
            body: self.body@,
        }
    }
}

impl Response {
    /// A Jaringan page with no tags.
    pub fn page(status: StatusCode, body: String) -> (r: Response)
        ensures
            r@ == (ResponseV {
                status,
                content_type: ContentType::JaringanPage,
                tags: Seq::empty(),
                body: body@,
            }),
    {
        let r = Response { status, content_type: ContentType::JaringanPage, tags: Vec::new(), body };
        assert(tags_view(r.tags@) =~= Seq::<ResponseTagV>::empty());
        r
    }

    /// Plain text with no tags.
    pub fn text(status: StatusCode, body: String) -> (r: Response)
        ensures
            r@ == (ResponseV {
                status,
                content_type: ContentType::PlainText,
                tags: Seq::empty(),
                body: body@,
            }),
    {
        let r = Response { status, content_type: ContentType::PlainText, tags: Vec::new(), body };
        assert(tags_view(r.tags@) =~= Seq::<ResponseTagV>::empty());
        r
    }

    /// The same response with one more tag at the end.
    pub fn with_tag(self, tag: ResponseTag) -> (r: Response)
        ensures
            r@ == (ResponseV { tags: self@.tags.push(tag@), ..self@ }),
    {
        let mut r = self;
        let ghost before = r.tags@;
        r.tags.push(tag);
        assert(tags_view(r.tags@) =~= tags_view(before).push(tag@));
        r
    }
}

#[derive(Debug, Clone, Copy, PartialEq, Eq, Structural)]
pub enum EncryptionSuite {
    XChaCha20Poly1305,
}

impl EncryptionSuite {
    pub open spec fn name(self) -> Seq<char> {
        "xchacha20poly1305"@
    }

    /// The suite a name stands for, ignoring surrounding whitespace and
    /// ASCII case.
    pub open spec fn spec_parse(input: Seq<char>) -> Option<EncryptionSuite> {
        if text::lower(text::trim(input)) == "xchacha20poly1305"@ {
            Some(EncryptionSuite::XChaCha20Poly1305)
        } else {
            None
        }
    }

    pub fn as_str(self) -> (r: &'static str)
        ensures
            r@ == self.name(),
    {
        "xchacha20poly1305"
    }

    pub fn parse(input: &str) -> (r: Option<EncryptionSuite>)
        ensures
            r == Self::spec_parse(input@),
    {
        let cs = text::chars_of(input);
        let t = text::trimmed(cs.as_slice());
        let l = text::lower_vec(t.as_slice());
        if text::chars_eq(l.as_slice(), text::chars_of("xchacha20poly1305").as_slice()) {
            Some(EncryptionSuite::XChaCha20Poly1305)
        } else {
            None
        }
    }
}

#[derive(Debug, Clone, Copy, PartialEq, Eq)]
pub enum EncryptionError {
    BadCapability,
    UnsupportedSuite,
    BadNonce,
    BadCiphertext,
    Encrypt,
    Decrypt,
}

impl EncryptionError {
    pub open spec fn spec_message(self) -> Seq<char> {
        match self {
            EncryptionError::BadCapability => "bad encryption capability"@,
            EncryptionError::UnsupportedSuite => "unsupported encryption suite"@,
            EncryptionError::BadNonce => "bad encryption nonce"@,
            EncryptionError::BadCiphertext => "bad ciphertext"@,
            EncryptionError::Encrypt => "encryption failed"@,
            EncryptionError::Decrypt => "decryption failed"@,
        }
    }

    /// The error as a sentence.
    pub fn message(self) -> (r: &'static str)
        ensures
            r@ == self.spec_message(),
    {
        match self {
            EncryptionError::BadCapability => "bad encryption capability",
            EncryptionError::UnsupportedSuite => "unsupported encryption suite",
            EncryptionError::BadNonce => "bad encryption nonce",
            EncryptionError::BadCiphertext => "bad ciphertext",
            EncryptionError::Encrypt => "encryption failed",
            EncryptionError::Decrypt => "decryption failed",
        }
    }
}

/// A suite and the identity of the key it is used with.
#[derive(Debug, Clone, PartialEq, Eq)]
pub struct EncryptionCapability {
    pub suite: EncryptionSuite,
    pub key_id: String,
}

pub ghost struct EncryptionCapabilityV {
    pub suite: EncryptionSuite,
    pub key_id: Seq<char>,
}

impl View for EncryptionCapability {
    type V = EncryptionCapabilityV;

    open spec fn view(&self) -> EncryptionCapabilityV {
        EncryptionCapabilityV { suite: self.suite, key_id: self.key_id@ }
    }
}

pub open spec fn key_id_prefix() -> Seq<char> {
    "key-id="@
}

/// The header value that advertises a capability.
pub open spec fn capability_header(c: EncryptionCapabilityV) -> Seq<char> {
    c.suite.name() + "; "@ + key_id_prefix() + c.key_id
}

/// The value of the last `key-id=` part, trimmed.
pub open spec fn last_key_id(parts: Seq<Seq<char>>) -> Option<Seq<char>>
    decreases parts.len(),
{
    if parts.len() == 0 {
        None
    } else if key_id_prefix().is_prefix_of(parts.last()) {
        Some(text::trim(parts.last().skip(key_id_prefix().len() as int)))
    } else {
        last_key_id(parts.drop_last())
    }
}

/// A capability header read back: the `;`-separated parts, trimmed; the
/// first names the suite, the last `key-id=` part gives a non-empty key id.
pub open spec fn parse_capability(s: Seq<char>) -> Result<EncryptionCapabilityV, EncryptionError> {
    let parts = text::split_on(s, ';').map_values(|p: Seq<char>| text::trim(p));
    match EncryptionSuite::spec_parse(parts[0]) {
        None => Err(EncryptionError::BadCapability),
        Some(suite) => match last_key_id(parts.drop_first()) {
            Some(k) => if k.len() > 0 {
                Ok(EncryptionCapabilityV { suite, key_id: k })
            } else {
                Err(EncryptionError::BadCapability)
            },
            None => Err(EncryptionError::BadCapability),
        },
    }
}

/// A key id the capability header carries unchanged: not empty, without
/// `;`, and neither starting nor ending with whitespace.
pub open spec fn plain_key_id(k: Seq<char>) -> bool {
    &&& k.len() > 0
    &&& !text::is_ws(k[0])
    &&& !text::is_ws(k.last())
    &&& text::free_of(k, ';')
}

/// Reading a written capability header gives the capability back.
pub proof fn lemma_capability_round_trip(c: EncryptionCapabilityV)
    requires
        plain_key_id(c.key_id),
    ensures
        parse_capability(capability_header(c)) == Ok::<EncryptionCapabilityV, EncryptionError>(c),
{
    reveal_strlit("xchacha20poly1305");
    reveal_strlit("; ");
    reveal_strlit("key-id=");
    let name = "xchacha20poly1305"@;
    let k = c.key_id;
    let rest = seq![' '] + key_id_prefix() + k;
    assert(capability_header(c) =~= name + seq![';'] + rest);
    assert(text::free_of(name, ';'));
    assert(text::free_of(rest, ';')) by {
        assert forall|i: int| 0 <= i < rest.len() implies rest[i] != ';' by {
            if i >= 8 {
                assert(rest[i] == k[i - 8]);
            }
        }
    }
    text::lemma_split_on_free(name, ';');
    text::lemma_split_on_append(name, rest, ';');
    let parts = text::split_on(capability_header(c), ';').map_values(|p: Seq<char>| text::trim(p));
    assert(text::split_on(capability_header(c), ';') =~= seq![name, rest]);
    text::lemma_trim_plain(name);
    let pk = key_id_prefix() + k;
    assert(pk[0] == 'k');
    assert(pk.last() == k.last());
    assert(text::is_ws(seq![' '][0]));
    text::lemma_trim_after_spaces(seq![' '], pk);
    assert(rest =~= seq![' '] + pk);
    assert(text::trim(rest) == pk);
    assert(parts[0] == text::trim(name));
    assert(parts[1] == text::trim(rest));
    assert(parts =~= seq![name, pk]);
    text::lemma_lower_plain(name);
    assert(EncryptionSuite::spec_parse(parts[0]) == Some(EncryptionSuite::XChaCha20Poly1305));
    let d = parts.drop_first();
    assert(d =~= seq![key_id_prefix() + k]);
    assert(key_id_prefix().is_prefix_of(d.last())) by {
        assert((key_id_prefix() + k).subrange(0, 7) =~= key_id_prefix());
    }
    assert(d.last().skip(7) =~= k);
    text::lemma_trim_plain(k);
}

impl EncryptionCapability {
    pub fn xchacha20_poly1305(key_id: &str) -> (r: EncryptionCapability)
        ensures
            r@ == (EncryptionCapabilityV {
                suite: EncryptionSuite::XChaCha20Poly1305,
                key_id: key_id@,
            }),
    {
        EncryptionCapability { suite: EncryptionSuite::XChaCha20Poly1305, key_id: String::from_str(key_id) }
    }

    pub fn to_header_value(&self) -> (r: String)
        ensures
            r@ == capability_header(self@),
    {
        let mut v = text::chars_of(self.suite.as_str());
        text::push_str(&mut v, "; ");
        text::push_str(&mut v, "key-id=");
        text::push_str(&mut v, self.key_id.as_str());
        text::string_from(v.as_slice())
    }

    /// Reads a capability header; see `parse_capability`.
    pub fn from_header_value(input: &str) -> (r: Result<EncryptionCapability, EncryptionError>)
        ensures
            match parse_capability(input@) {
                Ok(c) => r matches Ok(x) && x@ == c,
                Err(e) => r == Err::<EncryptionCapability, EncryptionError>(e),
            },
    {
        let cs = text::chars_of(input);
        let pieces = text::split_vecs(cs.as_slice(), ';');
        let ghost pv = text::split_on(input@, ';').map_values(|p: Seq<char>| text::trim(p));
        let mut parts: Vec<Vec<char>> = Vec::new();
        let mut i: usize = 0;
        while i < pieces.len()
            invariant
                i <= pieces@.len(),
                text::views(pieces@) == text::split_on(input@, ';'),
                pv == text::split_on(input@, ';').map_values(|p: Seq<char>| text::trim(p)),
                text::views(parts@) == pv.take(i as int),
            decreases pieces@.len() - i,
        {
            let t = text::trimmed(pieces[i].as_slice());
            let ghost before = parts@;
            parts.push(t);
            assert(text::views(parts@) =~= text::views(before).push(t@));
            assert(pv.take(i + 1) =~= pv.take(i as int).push(pv[i as int]));
            i = i + 1;
        }
        proof {
            text::lemma_split_on_len(input@, ';');
            assert(pv.take(pieces@.len() as int) =~= pv);
        }
        let first = text::string_from(parts[0].as_slice());
        let suite = match EncryptionSuite::parse(first.as_str()) {
            Some(s) => s,
            None => {
                return Err(EncryptionError::BadCapability);
            },
        };
        let prefix = text::chars_of("key-id=");
        let ghost rest = pv.drop_first();
        let mut key: Option<Vec<char>> = None;
        let mut j: usize = 1;
        assert(rest.take(0) =~= Seq::<Seq<char>>::empty());
        while j < parts.len()
            invariant
                1 <= j <= parts@.len(),
                text::views(parts@) == pv,
                rest == pv.drop_first(),
                prefix@ == key_id_prefix(),
                last_key_id(rest.take(j - 1)) == match key {
                    Some(k) => Some(k@),
                    None => None::<Seq<char>>,
                },
            decreases parts@.len() - j,
        {
            assert(rest.take(j as int).drop_last() =~= rest.take(j - 1));
            assert(rest.take(j as int).last() == parts@[j as int]@);
            if text::starts_with(parts[j].as_slice(), prefix.as_slice()) {
                let v = text::slice_of(parts[j].as_slice(), prefix.len(), parts[j].len());
                assert(v@ =~= parts@[j as int]@.skip(key_id_prefix().len() as int));
                key = Some(text::trimmed(v.as_slice()));
            }
            j = j + 1;
        }
        assert(rest.take(parts@.len() - 1) =~= rest);
        match key {
            Some(k) => {
                if k.len() > 0 {
                    Ok(EncryptionCapability { suite, key_id: text::string_from(k.as_slice()) })
                } else {
                    Err(EncryptionError::BadCapability)
                }
            },
            None => Err(EncryptionError::BadCapability),
        }
    }
}

/// A 256-bit key.
#[derive(Debug, Clone, PartialEq, Eq)]
pub struct EncryptionKey([u8; 32]);

impl EncryptionKey {
    pub closed spec fn bytes(&self) -> Seq<u8> {
        self.0@
    }

    pub fn from_bytes(bytes: [u8; 32]) -> (r: EncryptionKey)
        ensures
            r.bytes() == bytes@,
    {
        EncryptionKey(bytes)
    }

    pub fn as_bytes(&self) -> (r: &[u8; 32])
        ensures
            r@ == self.bytes(),
    {
        &self.0
    }
}

/// A 192-bit nonce.
#[derive(Debug, Clone, Copy, PartialEq, Eq)]
pub struct EncryptionNonce([u8; 24]);

impl EncryptionNonce {
    pub closed spec fn bytes(&self) -> Seq<u8> {
        self.0@
    }

    pub fn from_bytes(bytes: [u8; 24]) -> (r: EncryptionNonce)
        ensures
            r.bytes() == bytes@,
    {
        EncryptionNonce(bytes)
    }

    pub fn as_bytes(&self) -> (r: &[u8; 24])
        ensures
            r@ == self.bytes(),
    {
        &self.0
    }
}

/// A sealed message: its suite, and its nonce and ciphertext in base64.
#[derive(Debug, Clone, PartialEq, Eq)]
pub struct EncryptedPayload {
    pub suite: EncryptionSuite,
    pub nonce_base64: String,
    pub ciphertext_base64: String,
}

/// The capability and key used on an encrypted connection.
#[derive(Debug, Clone, PartialEq, Eq)]
pub struct EncryptedTcpConfig {
    pub capability: EncryptionCapability,
    pub key: EncryptionKey,
}

impl EncryptedTcpConfig {
    pub fn new(key_id: &str, key: EncryptionKey) -> (r: EncryptedTcpConfig)
        ensures
            r.capability@ == (EncryptionCapabilityV {
                suite: EncryptionSuite::XChaCha20Poly1305,
                key_id: key_id@,
            }),
            r.key == key,
    {
        EncryptedTcpConfig { capability: EncryptionCapability::xchacha20_poly1305(key_id), key }
    }
}

/// Why a local page could not be served.
#[derive(Debug, Clone, PartialEq, Eq)]
pub enum ResolveError {
    Read { path: String, message: String },
    Write { path: String, message: String },
}

/// What went wrong on the wire.
#[derive(Debug)]
pub enum WireError {
    Io(String),
    Url(UrlError),
    Resolve(ResolveError),
    BadRequest,
    BadResponse,
    BadEncryptedFrame,
    BadEncryptedCapability,
    Encryption(EncryptionError),
    BadAddress,
    PayloadTooLarge,
}

pub open spec fn nl() -> Seq<char> {
    seq!['\n']
}

/// The header line that carries a tag, without its line feed.
pub open spec fn tag_text(t: ResponseTagV) -> Seq<char> {
    match t {
        ResponseTagV::Redirect { target } => "Tag-Redirect: "@ + target,
        ResponseTagV::Stream => "Tag-Stream: true"@,
        ResponseTagV::Key { key_id, key_base64 } => "Tag-Key: "@ + key_id + " ed25519:"@ + key_base64,
        ResponseTagV::ContentType { value } => "Tag-ContentType: "@ + value,
    }
}

/// The header line that carries a tag.
pub open spec fn tag_line(t: ResponseTagV) -> Seq<char> {
    tag_text(t) + nl()
}

/// The first line of a response: protocol, code and reason.
pub open spec fn status_text(s: StatusCode) -> Seq<char> {
    "JRG/0.1 "@ + text::decimal(s.code() as nat) + seq![' '] + s.reason()
}

/// The header line that names the content type.
pub open spec fn content_type_text(c: ContentType) -> Seq<char> {
    "Content-Type: "@ + c.header()
}

/// A response as it is written on the wire: the status line, the
/// content type, one line per tag, a blank line, then the body.
pub open spec fn response_text(r: ResponseV) -> Seq<char> {
    status_text(r.status) + nl() + content_type_text(r.content_type) + nl() + r.tags.map_values(
        |t: ResponseTagV| tag_line(t),
    ).flatten() + nl() + r.body
}

/// Writes a response in its wire form.
pub fn write_response(response: &Response) -> (r: String)
    ensures
        r@ == response_text(response@),
{
    let mut out = text::chars_of("JRG/0.1 ");
    text::push_decimal(&mut out, response.status.as_u16() as usize);
    out.push(' ');
    text::push_str(&mut out, response.status.reason_phrase());
    out.push('\n');
    text::push_str(&mut out, "Content-Type: ");
    text::push_str(&mut out, response.content_type.as_str());
    out.push('\n');
    let ghost base = out@;
    let ghost m = response@.tags.map_values(|t: ResponseTagV| tag_line(t));
    let mut i: usize = 0;
    assert(m.take(0) =~= Seq::<Seq<char>>::empty());
    assert(out@ =~= base + m.take(0).flatten());
    while i < response.tags.len()
        invariant
            i <= response.tags@.len(),
            response@.tags.len() == response.tags@.len(),
            m == response@.tags.map_values(|t: ResponseTagV| tag_line(t)),
            out@ == base + m.take(i as int).flatten(),
        decreases response.tags@.len() - i,
    {
        let ghost before = out@;
        match &response.tags[i] {
            ResponseTag::Redirect { target } => {
                text::push_str(&mut out, "Tag-Redirect: ");
                text::push_str(&mut out, target.as_str());
            },
            ResponseTag::Stream => {
                text::push_str(&mut out, "Tag-Stream: true");
            },
            ResponseTag::Key { key_id, key_base64 } => {
                text::push_str(&mut out, "Tag-Key: ");
                text::push_str(&mut out, key_id.as_str());
                text::push_str(&mut out, " ed25519:");
                text::push_str(&mut out, key_base64.as_str());
            },
            ResponseTag::ContentType { value } => {
                text::push_str(&mut out, "Tag-ContentType: ");
                text::push_str(&mut out, value.as_str());
            },
        }
        out.push('\n');
        proof {
            assert(response@.tags[i as int] == response.tags@[i as int]@);
            assert(out@ =~= before + m[i as int]);
            assert(m.take(i + 1) =~= m.take(i as int).push(m[i as int]));
            m.take(i as int).lemma_flatten_push(m[i as int]);
        }
        i = i + 1;
    }
    assert(m.take(response.tags@.len() as int) =~= m);
    out.push('\n');
    text::push_str(&mut out, response.body.as_str());
    assert(out@ =~= response_text(response@));
    text::string_from(out.as_slice())
}

pub open spec fn all_digits(s: Seq<char>) -> bool {
    forall|i: int| 0 <= i < s.len() ==> '0' <= #[trigger] s[i] <= '9'
}

pub open spec fn digits_value(s: Seq<char>) -> nat
    decreases s.len(),
{
    if s.len() == 0 {
        0
    } else {
        digits_value(s.drop_last()) * 10 + ((s.last() as nat) - 48) as nat
    }
}

/// `u16::from_str`: an optional `+`, then at least one decimal digit, with
/// a value that fits.
pub open spec fn parse_u16(s: Seq<char>) -> Option<u16> {
    let t = if s.len() > 0 && s[0] == '+' {
        s.drop_first()
    } else {
        s
    };
    if t.len() > 0 && all_digits(t) && digits_value(t) <= 65535 {
        Some(digits_value(t) as u16)
    } else {
        None
    }
}

proof fn lemma_digits_grow(s: Seq<char>, k: int)
    requires
        0 <= k <= s.len(),
        all_digits(s),
    ensures
        digits_value(s.take(k)) <= digits_value(s),
    decreases s.len() - k,
{
    if k < s.len() {
        lemma_digits_grow(s, k + 1);
        assert(s.take(k + 1).drop_last() =~= s.take(k));
    } else {
        assert(s.take(k) =~= s);
    }
}

pub(crate) fn parse_u16_exec(s: &[char]) -> (r: Option<u16>)
    ensures
        r == parse_u16(s@),
{
    let start: usize = if s.len() > 0 && s[0] == '+' {
        1
    } else {
        0
    };
    let ghost t = if s@.len() > 0 && s@[0] == '+' {
        s@.drop_first()
    } else {
        s@
    };
    assert(t =~= s@.skip(start as int));
    assert(parse_u16(s@) == if t.len() > 0 && all_digits(t) && digits_value(t) <= 65535 {
        Some(digits_value(t) as u16)
    } else {
        None
    });
    if start >= s.len() {
        return None;
    }
    let mut v: u32 = 0;
    let mut i: usize = start;
    while i < s.len()
        invariant
            start <= i <= s@.len(),
            start < s@.len(),
            t == s@.skip(start as int),
            parse_u16(s@) == if t.len() > 0 && all_digits(t) && digits_value(t) <= 65535 {
                Some(digits_value(t) as u16)
            } else {
                None
            },
            forall|j: int| 0 <= j < i - start ==> '0' <= #[trigger] t[j] <= '9',
            v == digits_value(t.take(i - start)),
            v <= 65535,
        decreases s@.len() - i,
    {
        let c = s[i];
        assert(t[i - start] == c);
        if c < '0' || c > '9' {
            assert(!all_digits(t));
            return None;
        }
        let d: u32 = (c as u32) - 48;
        assert(t.take(i - start + 1).drop_last() =~= t.take(i - start));
        let nv: u32 = v * 10 + d;
        if nv > 65535 {
            proof {
                if all_digits(t) {
                    lemma_digits_grow(t, i - start + 1);
                }
            }
            return None;
        }
        v = nv;
        i = i + 1;
    }
    assert(t.take(s@.len() - start) =~= t);
    Some(v as u16)
}

pub(crate) fn skip_ws_exec(s: &[char], i: usize) -> (r: usize)
    requires
        i <= s@.len(),
    ensures
        r == text::skip_ws_from(s@, i as int),
        i <= r <= s@.len(),
{
    let mut k = i;
    while k < s.len() && text::char_is_ws(s[k])
        invariant
            i <= k <= s@.len(),
            text::skip_ws_from(s@, k as int) == text::skip_ws_from(s@, i as int),
        decreases s@.len() - k,
    {
        k = k + 1;
    }
    k
}

pub(crate) fn to_ws_exec(s: &[char], i: usize) -> (r: usize)
    requires
        i <= s@.len(),
    ensures
        r == text::ws_from(s@, i as int),
        i <= r <= s@.len(),
{
    let mut k = i;
    while k < s.len() && !text::char_is_ws(s[k])
        invariant
            i <= k <= s@.len(),
            text::ws_from(s@, k as int) == text::ws_from(s@, i as int),
        decreases s@.len() - k,
    {
        k = k + 1;
    }
    k
}

/// The status named by a status line: its first word must be `JRG/0.1`
/// and its second a known code.
pub open spec fn status_line(l: Seq<char>) -> Option<StatusCode> {
    let a = text::skip_ws_from(l, 0);
    let b = text::ws_from(l, a);
    if a >= l.len() || l.subrange(a, b) != "JRG/0.1"@ {
        None
    } else {
        let c = text::skip_ws_from(l, b);
        let d = text::ws_from(l, c);
        if c >= l.len() {
            None
        } else {
            match parse_u16(l.subrange(c, d)) {
                None => None,
                Some(n) => status_of(n),
            }
        }
    }
}

fn status_line_exec(l: &[char]) -> (r: Option<StatusCode>)
    ensures
        r == status_line(l@),
{
    proof {
        text::lemma_trim_start_skip(l@, 0);
    }
    let a = skip_ws_exec(l, 0);
    let b = to_ws_exec(l, a);
    if a >= l.len() {
        return None;
    }
    let w = text::slice_of(l, a, b);
    if !text::chars_eq(w.as_slice(), text::chars_of("JRG/0.1").as_slice()) {
        return None;
    }
    let c = skip_ws_exec(l, b);
    let d = to_ws_exec(l, c);
    if c >= l.len() {
        return None;
    }
    let n = text::slice_of(l, c, d);
    match parse_u16_exec(n.as_slice()) {
        None => None,
        Some(code) => StatusCode::from_u16(code),
    }
}

pub open spec fn after(l: Seq<char>, p: Seq<char>) -> Seq<char> {
    l.skip(p.len() as int)
}

/// The tag a header line carries, if any.
pub open spec fn tag_of(l: Seq<char>) -> Seq<ResponseTagV> {
    if "Tag-Redirect:"@.is_prefix_of(l) {
        seq![ResponseTagV::Redirect { target: text::trim(after(l, "Tag-Redirect:"@)) }]
    } else if text::trim(l) == "Tag-Stream: true"@ {
        seq![ResponseTagV::Stream]
    } else if "Tag-Key:"@.is_prefix_of(l) {
        let v = text::trim(after(l, "Tag-Key:"@));
        let k = text::char_from(v, ' ', 0);
        if k < v.len() && "ed25519:"@.is_prefix_of(v.skip(k + 1)) {
            seq![
                ResponseTagV::Key {
                    key_id: v.take(k),
                    key_base64: after(v.skip(k + 1), "ed25519:"@),
                },
            ]
        } else {
            Seq::empty()
        }
    } else if "Tag-ContentType:"@.is_prefix_of(l) {
        seq![ResponseTagV::ContentType { value: text::trim(after(l, "Tag-ContentType:"@)) }]
    } else {
        Seq::empty()
    }
}

/// The content type and tags given by the header lines after the status
/// line; a later `Content-Type` line replaces an earlier one.
pub open spec fn header_state(ls: Seq<Seq<char>>) -> (Option<ContentType>, Seq<ResponseTagV>)
    decreases ls.len(),
{
    if ls.len() == 0 {
        (None, Seq::empty())
    } else {
        let (c, t) = header_state(ls.drop_last());
        let l = ls.last();
        if "Content-Type:"@.is_prefix_of(l) {
            (media_type(media_part(text::trim(after(l, "Content-Type:"@)))), t)
        } else {
            (c, t + tag_of(l))
        }
    }
}

/// A response read from its wire form, or `None` when it is malformed:
/// the headers end at the first blank line, the status line comes first,
/// and a content type is required.
pub open spec fn parse_response(s: Seq<char>) -> Option<ResponseV> {
    match text::find(s, seq!['\n', '\n']) {
        None => None,
        Some(k) => {
            let hl = text::lines(s.take(k));
            if hl.len() == 0 {
                None
            } else {
                match status_line(hl[0]) {
                    None => None,
                    Some(st) => {
                        let (c, tags) = header_state(hl.drop_first());
                        match c {
                            None => None,
                            Some(ct) => Some(
                                ResponseV { status: st, content_type: ct, tags, body: s.skip(k + 2) },
                            ),
                        }
                    },
                }
            }
        },
    }
}

fn after_exec(l: &[char], p: &[char]) -> (r: Vec<char>)
    requires
        p@.len() <= l@.len(),
    ensures
        r@ == after(l@, p@),
{
    let r = text::slice_of(l, p.len(), l.len());
    assert(r@ =~= after(l@, p@));
    r
}

fn tag_of_exec(l: &[char], out: &mut Vec<ResponseTag>)
    ensures
        tags_view(final(out)@) == tags_view(old(out)@) + tag_of(l@),
{
    let ghost before = tags_view(out@);
    let redirect = text::chars_of("Tag-Redirect:");
    let stream = text::chars_of("Tag-Stream: true");
    let key = text::chars_of("Tag-Key:");
    let ctype = text::chars_of("Tag-ContentType:");
    if text::starts_with(l, redirect.as_slice()) {
        let v = text::trimmed(after_exec(l, redirect.as_slice()).as_slice());
        out.push(ResponseTag::Redirect { target: text::string_from(v.as_slice()) });
    } else if text::chars_eq(text::trimmed(l).as_slice(), stream.as_slice()) {
        out.push(ResponseTag::Stream);
    } else if text::starts_with(l, key.as_slice()) {
        let v = text::trimmed(after_exec(l, key.as_slice()).as_slice());
        proof {
            text::lemma_char_from(v@, ' ', 0);
        }
        let k = text::find_char(v.as_slice(), ' ', 0);
        if k < v.len() {
            let rest = text::slice_of(v.as_slice(), k + 1, v.len());
            assert(rest@ =~= v@.skip(k + 1));
            let ed = text::chars_of("ed25519:");
            if text::starts_with(rest.as_slice(), ed.as_slice()) {
                let id = text::slice_of(v.as_slice(), 0, k);
                assert(id@ =~= v@.take(k as int));
                let b64 = after_exec(rest.as_slice(), ed.as_slice());
                out.push(
                    ResponseTag::Key {
                        key_id: text::string_from(id.as_slice()),
                        key_base64: text::string_from(b64.as_slice()),
                    },
                );
            }
        }
    } else if text::starts_with(l, ctype.as_slice()) {
        let v = text::trimmed(after_exec(l, ctype.as_slice()).as_slice());
        out.push(ResponseTag::ContentType { value: text::string_from(v.as_slice()) });
    }
    assert(tags_view(out@) =~= before + tag_of(l@));
}

/// Reads a response from its wire form; see `parse_response`.
pub fn read_response(input: &str) -> (r: Result<Response, WireError>)
    ensures
        match parse_response(input@) {
            Some(v) => r matches Ok(x) && x@ == v,
            None => r == Err::<Response, WireError>(WireError::BadResponse),
        },
{
    let cs = text::chars_of(input);
    let sep = ['\n', '\n'];
    assert(sep@ == seq!['\n', '\n']);
    let k = match text::find_sub(cs.as_slice(), sep.as_slice(), 0) {
        Some(k) => k,
        None => {
            return Err(WireError::BadResponse);
        },
    };
    proof {
        text::lemma_find_from_bounds(cs@, sep@, 0);
    }
    assert(k + 2 <= cs@.len());
    assert(cs@.len() == cs.len());
    let body = text::slice_of(cs.as_slice(), k + 2, cs.len());
    assert(body@ =~= input@.skip(k + 2));
    let headers = text::slice_of(cs.as_slice(), 0, k);
    assert(headers@ =~= input@.take(k as int));
    let hl = text::lines_of(headers.as_slice());
    if hl.len() == 0 {
        return Err(WireError::BadResponse);
    }
    assert(text::views(hl@)[0] == hl@[0]@);
    let status = match status_line_exec(hl[0].as_slice()) {
        Some(s) => s,
        None => {
            return Err(WireError::BadResponse);
        },
    };
    let ghost rest = text::views(hl@).drop_first();
    let mut content: Option<ContentType> = None;
    let mut tags: Vec<ResponseTag> = Vec::new();
    let mut i: usize = 1;
    assert(rest.take(0) =~= Seq::<Seq<char>>::empty());
    assert(tags_view(tags@) =~= Seq::<ResponseTagV>::empty());
    let ct = text::chars_of("Content-Type:");
    while i < hl.len()
        invariant
            1 <= i <= hl@.len(),
            rest == text::views(hl@).drop_first(),
            ct@ == "Content-Type:"@,
            header_state(rest.take(i - 1)) == (content, tags_view(tags@)),
        decreases hl@.len() - i,
    {
        assert(rest.take(i as int).drop_last() =~= rest.take(i - 1));
        assert(rest.take(i as int).last() == hl@[i as int]@);
        if text::starts_with(hl[i].as_slice(), ct.as_slice()) {
            let v = text::trimmed(after_exec(hl[i].as_slice(), ct.as_slice()).as_slice());
            let vs = text::string_from(v.as_slice());
            content = ContentType::from_header(vs.as_str());
        } else {
            tag_of_exec(hl[i].as_slice(), &mut tags);
        }
        i = i + 1;
    }
    assert(rest.take(hl@.len() - 1) =~= rest);
    let content_type = match content {
        Some(c) => c,
        None => {
            return Err(WireError::BadResponse);
        },
    };
    Ok(Response { status, content_type, tags, body: text::string_from(body.as_slice()) })
}

} // verus!
