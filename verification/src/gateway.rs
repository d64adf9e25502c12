//! The HTTP and Jaringan gateways: their settings, how a Jaringan response
//! becomes HTTP response parts, and how web content becomes a page.

use vstd::prelude::*;
use crate::text;
use crate::protocol::{self, ContentType, RequestMethod, Response, ResponseTag, ResponseTagV, ResponseV, WireError};

verus! {

broadcast use vstd::string::group_string_axioms;

/// Why a gateway request failed.
#[derive(Debug)]
pub enum GatewayError {
    JrgProtocol(WireError),
    HttpRequest(String),
    UrlParse(String),
    Io(String),
    Config(String),
    Resolver(String),
}

/// Settings of the HTTP-to-Jaringan gateway.
#[derive(Debug, Clone)]
pub struct HttpToJrgGatewayConfig {
    /// The address the HTTP server listens on.
    pub listen_addr: String,
    /// The Jaringan host that relative paths are sent to.
    pub jrg_host: String,
    /// Whether `/http/*` fetches web pages for Jaringan clients.
    pub enable_http_bridge: bool,
    /// Whether streamed responses are forwarded as server-sent events.
    pub enable_streaming: bool,
    pub timeout_secs: u64,
    pub cache_ttl_secs: u64,
    pub cache_max_entries: usize,
}

impl Default for HttpToJrgGatewayConfig {
    fn default() -> (r: HttpToJrgGatewayConfig)
        ensures
            r.listen_addr@ == "127.0.0.1:8080"@,
            r.jrg_host@ == "127.0.0.1:7070"@,
            !r.enable_http_bridge,
            r.enable_streaming,
            r.timeout_secs == 10,
            r.cache_ttl_secs == 60,
            r.cache_max_entries == 128,
    {
        HttpToJrgGatewayConfig {
            listen_addr: String::from_str("127.0.0.1:8080"),
            jrg_host: String::from_str("127.0.0.1:7070"),
            enable_http_bridge: false,
            enable_streaming: true,
            timeout_secs: 10,
            cache_ttl_secs: 60,
            cache_max_entries: 128,
        }
    }
}

/// The HTTP-to-Jaringan gateway.
pub struct HttpToJrgGateway {
    config: HttpToJrgGatewayConfig,
}

/// The Jaringan URL an HTTP path stands for: a `jrg://` URL after the
/// leading slashes as it is, anything else under the configured host.
pub open spec fn jrg_url_for(path: Seq<char>, jrg_host: Seq<char>) -> Seq<char> {
    let p = path.skip(text::lead(path, '/', 0));
    if "jrg://"@.is_prefix_of(p) {
        p
    } else {
        "jrg://"@ + jrg_host + seq!['/'] + p
    }
}

impl HttpToJrgGateway {
    pub closed spec fn spec_config(&self) -> HttpToJrgGatewayConfig {
        self.config
    }

    pub fn new(config: HttpToJrgGatewayConfig) -> (r: HttpToJrgGateway)
        ensures
            r.spec_config() == config,
    {
        HttpToJrgGateway { config }
    }

    /// See `jrg_url_for`; it always succeeds.
    pub fn build_jrg_url(path: &str, config: &HttpToJrgGatewayConfig) -> (r: Result<String, GatewayError>)
        ensures
            r matches Ok(u) && u@ == jrg_url_for(path@, config.jrg_host@),
    {
        let cs = text::chars_of(path);
        let n = text::lead_count(cs.as_slice(), '/');
        proof {
            text::lemma_lead(cs@, '/', 0);
        }
        let p = text::slice_of(cs.as_slice(), n, cs.len());
        assert(p@ =~= path@.skip(text::lead(path@, '/', 0)));
        let scheme = text::chars_of("jrg://");
        if text::starts_with(p.as_slice(), scheme.as_slice()) {
            Ok(text::string_from(p.as_slice()))
        } else {
            let mut v = text::chars_of("jrg://");
            text::push_str(&mut v, config.jrg_host.as_str());
            v.push('/');
            text::push_chars(&mut v, p.as_slice());
            Ok(text::string_from(v.as_slice()))
        }
    }
}

/// How one character is written in HTML text.
pub open spec fn html_char(c: char) -> Seq<char> {
    if c == '&' {
        "&amp;"@
    } else if c == '<' {
        "&lt;"@
    } else if c == '>' {
        "&gt;"@
    } else if c == '"' {
        "&quot;"@
    } else if c == '\'' {
        "&#39;"@
    } else {
        seq![c]
    }
}

pub open spec fn html_escaped(s: Seq<char>) -> Seq<char> {
    s.map_values(|c: char| html_char(c)).flatten()
}

/// `s` with `&`, `<`, `>`, `"` and `'` written as HTML entities.
pub fn html_escape(s: &str) -> (r: String)
    ensures
        r@ == html_escaped(s@),
{
    let cs = text::chars_of(s);
    let ghost m = s@.map_values(|c: char| html_char(c));
    let mut out: Vec<char> = Vec::new();
    let mut i: usize = 0;
    assert(m.take(0) =~= Seq::<Seq<char>>::empty());
    while i < cs.len()
        invariant
            i <= cs@.len(),
            cs@ == s@,
            m == s@.map_values(|c: char| html_char(c)),
            out@ == m.take(i as int).flatten(),
        decreases cs@.len() - i,
    {
        let c = cs[i];
        let ghost before = out@;
        if c == '&' {
            text::push_str(&mut out, "&amp;");
        } else if c == '<' {
            text::push_str(&mut out, "&lt;");
        } else if c == '>' {
            text::push_str(&mut out, "&gt;");
        } else if c == '"' {
            text::push_str(&mut out, "&quot;");
        } else if c == '\'' {
            text::push_str(&mut out, "&#39;");
        } else {
            out.push(c);
        }
        proof {
            assert(out@ =~= before + m[i as int]);
            assert(m.take(i + 1) =~= m.take(i as int).push(m[i as int]));
            m.take(i as int).lemma_flatten_push(m[i as int]);
        }
        i = i + 1;
    }
    assert(m.take(cs@.len() as int) =~= m);
    text::string_from(out.as_slice())
}

pub open spec fn unreserved(b: u8) -> bool {
    (65u8 <= b && b <= 90u8) || (97u8 <= b && b <= 122u8) || (48u8 <= b && b <= 57u8) || b == 45u8
        || b == 95u8 || b == 46u8 || b == 126u8
}

pub open spec fn hex_digit(d: u8) -> char {
    if d < 10 {
        ((d + 48) as u8) as char
    } else {
        ((d + 55) as u8) as char
    }
}

/// How one byte is written in a form-encoded value.
pub open spec fn url_byte(b: u8) -> Seq<char> {
    if unreserved(b) {
        seq![b as char]
    } else if b == 32u8 {
        seq!['+']
    } else {
        seq!['%', hex_digit(b / 16), hex_digit(b % 16)]
    }
}

/// The UTF-8 bytes of `s`, form-encoded.
pub open spec fn url_encoded(s: Seq<char>) -> Seq<char> {
    vstd::utf8::encode_utf8(s).map_values(|b: u8| url_byte(b)).flatten()
}

fn hex_char(d: u8) -> (c: char)
    requires
        d < 16,
    ensures
        c == hex_digit(d),
{
    if d < 10 {
        (d + 48) as char
    } else {
        (d + 55) as char
    }
}

pub fn urlencode(s: &str) -> (r: String)
    ensures
        r@ == url_encoded(s@),
{
    let bytes = s.as_bytes();
    let ghost m = bytes@.map_values(|b: u8| url_byte(b));
    let mut out: Vec<char> = Vec::new();
    let mut i: usize = 0;
    assert(m.take(0) =~= Seq::<Seq<char>>::empty());
    while i < bytes.len()
        invariant
            i <= bytes@.len(),
            m == bytes@.map_values(|b: u8| url_byte(b)),
            out@ == m.take(i as int).flatten(),
        decreases bytes@.len() - i,
    {
        let b = bytes[i];
        let ghost before = out@;
        if (65u8 <= b && b <= 90u8) || (97u8 <= b && b <= 122u8) || (48u8 <= b && b <= 57u8) || b
            == 45u8 || b == 95u8 || b == 46u8 || b == 126u8 {
            out.push(b as char);
        } else if b == 32u8 {
            out.push('+');
        } else {
            out.push('%');
            out.push(hex_char(b / 16));
            out.push(hex_char(b % 16));
        }
        proof {
            assert(out@ =~= before + m[i as int]);
            assert(m.take(i + 1) =~= m.take(i as int).push(m[i as int]));
            m.take(i as int).lemma_flatten_push(m[i as int]);
        }
        i = i + 1;
    }
    assert(m.take(bytes@.len() as int) =~= m);
    text::string_from(out.as_slice())
}

/// The HTTP header that carries a tag.
pub open spec fn tag_header(t: ResponseTagV) -> (Seq<char>, Seq<char>) {
    match t {
        ResponseTagV::Redirect { target } => ("Location"@, target),
        ResponseTagV::Stream => ("X-JRG-Stream"@, "true"@),
        ResponseTagV::Key { key_id, key_base64 } => ("X-JRG-Key"@, key_id + " ed25519:"@ + key_base64),
        ResponseTagV::ContentType { value } => ("X-JRG-Content-Type"@, value),
    }
}

pub open spec fn headers_view(v: Seq<(String, String)>) -> Seq<(Seq<char>, Seq<char>)> {
    v.map_values(|p: (String, String)| (p.0@, p.1@))
}

/// The HTTP status, reason, headers (content type first, then one per tag)
/// and body of a Jaringan response.
pub fn jrg_response_to_http_response(response: Response) -> (r: (u16, String, Vec<(String, String)>, String))
    ensures
        r.0 == response.status.code(),
        r.1@ == response.status.reason(),
        headers_view(r.2@) == seq![("Content-Type"@, response.content_type.header())]
            + response@.tags.map_values(|t: ResponseTagV| tag_header(t)),
        r.3@ == response.body@,
{
    let status = response.status.as_u16();
    let reason = String::from_str(response.status.reason_phrase());
    let mut headers: Vec<(String, String)> = Vec::new();
    headers.push((String::from_str("Content-Type"), String::from_str(response.content_type.as_str())));
    let ghost m = response@.tags.map_values(|t: ResponseTagV| tag_header(t));
    let mut i: usize = 0;
    assert(headers_view(headers@) =~= seq![("Content-Type"@, response.content_type.header())] + m.take(0));
    while i < response.tags.len()
        invariant
            i <= response.tags@.len(),
            response@.tags.len() == response.tags@.len(),
            m == response@.tags.map_values(|t: ResponseTagV| tag_header(t)),
            headers_view(headers@) == seq![("Content-Type"@, response.content_type.header())] + m.take(i as int),
        decreases response.tags@.len() - i,
    {
        let h = match &response.tags[i] {
            ResponseTag::Redirect { target } => (String::from_str("Location"), target.clone()),
            ResponseTag::Stream => (String::from_str("X-JRG-Stream"), String::from_str("true")),
            ResponseTag::Key { key_id, key_base64 } => {
                let mut v = text::chars_of(key_id.as_str());
                text::push_str(&mut v, " ed25519:");
                text::push_str(&mut v, key_base64.as_str());
                (String::from_str("X-JRG-Key"), text::string_from(v.as_slice()))
            },
            ResponseTag::ContentType { value } => (String::from_str("X-JRG-Content-Type"), value.clone()),
        };
        let ghost before = headers@;
        headers.push(h);
        proof {
            assert(response@.tags[i as int] == response.tags@[i as int]@);
            assert(headers_view(headers@) =~= headers_view(before).push((h.0@, h.1@)));
            assert(m.take(i + 1) =~= m.take(i as int).push(m[i as int]));
        }
        i = i + 1;
    }
    assert(m.take(response.tags@.len() as int) =~= m);
    (status, reason, headers, response.body)
}

/// Settings of the resolver that fetches web pages for Jaringan clients.
#[derive(Debug, Clone)]
pub struct JrgToHttpResolverConfig {
    pub user_agent: String,
    pub timeout_secs: u64,
    /// The largest body accepted, in bytes.
    pub max_response_size: usize,
    pub follow_redirects: bool,
    /// Whether invalid or self-signed certificates are accepted.
    pub danger_accept_invalid_certs: bool,
    /// Headers sent with every request.
    pub additional_headers: std::collections::HashMap<String, String>,
}

impl Default for JrgToHttpResolverConfig {
    fn default() -> (r: JrgToHttpResolverConfig)
        ensures
            r.user_agent@ == "Jaringan/0.1 (+https://github.com/thesimonharms/jaringan)"@,
            r.timeout_secs == 15,
            r.max_response_size == 1024 * 1024,
            r.follow_redirects,
            !r.danger_accept_invalid_certs,
            r.additional_headers@ == Map::<String, String>::empty(),
    {
        JrgToHttpResolverConfig {
            user_agent: String::from_str("Jaringan/0.1 (+https://github.com/thesimonharms/jaringan)"),
            timeout_secs: 15,
            max_response_size: 1024 * 1024,
            follow_redirects: true,
            danger_accept_invalid_certs: false,
            additional_headers: std::collections::HashMap::new(),
        }
    }
}

/// The Jaringan method an HTTP method is sent as: `POST`, `PUT`, `DELETE`
/// and `PATCH` post; every other method gets.
pub open spec fn jrg_method_of(http_method: Seq<char>) -> RequestMethod {
    if http_method == "POST"@ || http_method == "PUT"@ || http_method == "DELETE"@ || http_method == "PATCH"@ {
        RequestMethod::Post
    } else {
        RequestMethod::Get
    }
}

/// The Jaringan method for an HTTP request method, given by its name.
pub fn http_method_to_jrg(method: &str) -> (r: RequestMethod)
    ensures
        r == jrg_method_of(method@),
{
    let m = text::chars_of(method);
    let writes = ["POST", "PUT", "DELETE", "PATCH"];
    let mut i: usize = 0;
    while i < 4
        invariant
            i <= 4,
            m@ == method@,
            writes@ == seq!["POST", "PUT", "DELETE", "PATCH"],
            forall|k: int| 0 <= k < i ==> method@ != (#[trigger] writes@[k])@,
        decreases 4 - i,
    {
        if text::chars_eq(m.as_slice(), text::chars_of(writes[i]).as_slice()) {
            return RequestMethod::Post;
        }
        i = i + 1;
    }
    assert(method@ != writes@[0]@ && method@ != writes@[1]@ && method@ != writes@[2]@ && method@ != writes@[3]@);
    RequestMethod::Get
}

} // verus!
