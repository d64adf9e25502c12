//! The Jaringan-to-HTTP resolver's text work: turning a fetched web page
//! into readable text, and a fetched body into a page.

use vstd::prelude::*;
use vstd::utf8::{decode_utf8, valid_utf8};
use crate::text;
use crate::text::{ascii_lower, eq_ic, is_ws};
use crate::gateway::{GatewayError, JrgToHttpResolverConfig};
use crate::jrg_url::{JaringanUrl, JaringanUrlV};

verus! {

broadcast use vstd::string::group_string_axioms;

/// The bytes of `b`, each taken as the character with that code.
pub open spec fn byte_chars(b: Seq<u8>) -> Seq<char> {
    b.map_values(|x: u8| x as char)
}

/// Whether `p` stands at `i` in `s`, ignoring ASCII letter case.
pub open spec fn at_ic(s: Seq<char>, i: int, p: Seq<char>) -> bool {
    0 <= i && i + p.len() <= s.len() && eq_ic(s.subrange(i, i + p.len()), p)
}

/// The characters that may follow a tag's name.
pub open spec fn ends_tag_name(c: char) -> bool {
    c == '>' || c == ' ' || c == '/' || c == '\t' || c == '\n'
}

/// Whether an opening tag named `name` starts at `i`: `<`, the name in any
/// letter case, then `>`, a space, `/`, a tab or a line feed.
pub open spec fn tag_at(s: Seq<char>, i: int, name: Seq<char>) -> bool {
    &&& 0 <= i
    &&& i + name.len() + 2 <= s.len()
    &&& s[i] == '<'
    &&& at_ic(s, i + 1, name)
    &&& ends_tag_name(s[i + 1 + name.len()])
}

/// The value of the double-quoted attribute `name` in a tag's bytes; bytes
/// that are not UTF-8 have no attributes.
pub open spec fn attr_value(tag: Seq<u8>, name: Seq<char>) -> Option<Seq<char>> {
    if !valid_utf8(tag) {
        None
    } else {
        attr_in(decode_utf8(tag), name)
    }
}

/// The value of the double-quoted attribute `name` in a tag's text: the
/// text after the first `name="` up to the next `"`.
pub open spec fn attr_in(t: Seq<char>, name: Seq<char>) -> Option<Seq<char>> {
    let p = name + seq!['=', '"'];
    match text::find(t, p) {
        None => None,
        Some(k) => {
            let v = k + p.len();
            let e = text::char_from(t, '"', v);
            if e < t.len() {
                Some(t.subrange(v, e))
            } else {
                None
            }
        },
    }
}

/// Where the resolver stands while it reads a page.
pub ghost struct StripState {
    pub in_tag: bool,
    pub in_script: bool,
    pub in_style: bool,
    pub in_anchor: bool,
    pub href: Seq<char>,
    pub anchor_text: Seq<char>,
    pub out: Seq<char>,
}

pub open spec fn strip_start() -> StripState {
    StripState {
        in_tag: false,
        in_script: false,
        in_style: false,
        in_anchor: false,
        href: Seq::empty(),
        anchor_text: Seq::empty(),
        out: Seq::empty(),
    }
}

/// A link's text, trimmed, with its target in brackets when both are there.
pub open spec fn anchor_output(anchor_text: Seq<char>, href: Seq<char>) -> Seq<char> {
    let t = text::trim(anchor_text);
    if t.len() > 0 && href.len() > 0 {
        t + " ("@ + href + seq![')']
    } else {
        t
    }
}

/// Whether the text so far is empty or ends in one of `a`, `b`.
pub open spec fn ends_in(out: Seq<char>, a: char, b: char) -> bool {
    out.len() == 0 || out.last() == a || out.last() == b
}

/// The index of the first `>` at or after `i`, if there is one.
pub open spec fn tag_end(s: Seq<char>, i: int) -> Option<int> {
    let e = text::char_from(s, '>', i);
    if e < s.len() {
        Some(e)
    } else {
        None
    }
}

/// The tag that starts at `i` of the page `s` read into the state.
pub open spec fn open_tag(s: Seq<char>, i: int, st: StripState) -> StripState {
    let free = !st.in_script && !st.in_style;
    let st = StripState { in_tag: true, ..st };
    if at_ic(s, i, "</script>"@) {
        StripState { in_script: false, ..st }
    } else if at_ic(s, i, "</style>"@) {
        StripState { in_style: false, ..st }
    } else if free && at_ic(s, i + 1, "script>"@) {
        StripState { in_script: true, ..st }
    } else if free && at_ic(s, i + 1, "style>"@) {
        StripState { in_style: true, ..st }
    } else if free && st.in_anchor && at_ic(s, i, "</a>"@) {
        StripState {
            in_anchor: false,
            href: Seq::empty(),
            anchor_text: Seq::empty(),
            out: st.out + anchor_output(st.anchor_text, st.href),
            ..st
        }
    } else if free && !st.in_anchor && tag_at(s, i, "a"@) {
        let href = match tag_end(s, i) {
            Some(e) => match attr_in(s.subrange(i, e + 1), "href"@) {
                Some(h) => h,
                None => Seq::empty(),
            },
            None => Seq::empty(),
        };
        StripState { in_anchor: true, href, anchor_text: Seq::empty(), ..st }
    } else if free && tag_at(s, i, "br"@) {
        if ends_in(st.out, '\n', ' ') {
            st
        } else {
            StripState { out: st.out.push('\n'), ..st }
        }
    } else if free && tag_at(s, i, "img"@) {
        match tag_end(s, i) {
            Some(e) => match attr_in(s.subrange(i, e + 1), "alt"@) {
                Some(alt) => if alt.len() > 0 {
                    if ends_in(st.out, ' ', ' ') {
                        StripState { out: st.out + alt, ..st }
                    } else {
                        StripState { out: st.out.push(' ') + alt, ..st }
                    }
                } else {
                    st
                },
                None => st,
            },
            None => st,
        }
    } else {
        st
    }
}

/// One character of the page read into the state.
pub open spec fn strip_step(s: Seq<char>, i: int, st: StripState) -> StripState {
    let c = s[i];
    if c == '<' {
        let t = open_tag(s, i, st);
        if !t.in_anchor && !ends_in(t.out, ' ', '\n') {
            StripState { out: t.out.push(' '), ..t }
        } else {
            t
        }
    } else if st.in_tag {
        if c == '>' {
            StripState { in_tag: false, ..st }
        } else {
            st
        }
    } else if st.in_script || st.in_style {
        st
    } else if st.in_anchor {
        StripState { anchor_text: st.anchor_text.push(c), ..st }
    } else {
        StripState { out: st.out.push(c), ..st }
    }
}

/// The state after the first `n` characters of the page.
pub open spec fn strip_run(s: Seq<char>, n: int) -> StripState
    decreases n,
{
    if n <= 0 {
        strip_start()
    } else {
        strip_step(s, n - 1, strip_run(s, n - 1))
    }
}

/// Each run of whitespace other than a line feed becomes one space.
pub open spec fn collapse_ws(s: Seq<char>) -> Seq<char>
    decreases s.len(),
{
    if s.len() == 0 {
        Seq::empty()
    } else {
        let p = collapse_ws(s.drop_last());
        let c = s.last();
        let prev_space = s.len() > 1 && is_ws(s[s.len() - 2]) && s[s.len() - 2] != '\n';
        if c == '\n' {
            p.push('\n')
        } else if is_ws(c) {
            if prev_space {
                p
            } else {
                p.push(' ')
            }
        } else {
            p.push(c)
        }
    }
}

/// The readable text of an HTML page.
pub open spec fn stripped_html(s: Seq<char>) -> Seq<char> {
    let st = strip_run(s, s.len() as int);
    let out = if st.in_anchor {
        st.out + anchor_output(st.anchor_text, st.href)
    } else {
        st.out
    };
    text::trim(collapse_ws(out))
}

/// Whether a Jaringan URL's host names the web gateway: `http`, or a host
/// starting `http.` or `https.`.
pub open spec fn gateway_host(h: Seq<char>) -> bool {
    h == "http"@ || "http."@.is_prefix_of(h) || "https."@.is_prefix_of(h)
}

/// `host:port`, or the host alone.
pub open spec fn with_port(host: Seq<char>, port: Option<u16>) -> Seq<char> {
    match port {
        Some(p) => host + seq![':'] + text::decimal(p as nat),
        None => host,
    }
}

/// The web address a gateway URL stands for: `jrg://http/<rest>` is
/// `http://<rest>`, and `jrg://https.<host>/<path>` (or `http.`) is that
/// host, with the port, and path over HTTPS (or HTTP).
pub open spec fn http_url_of(u: JaringanUrlV) -> Option<Seq<char>> {
    if u.host == "http"@ {
        Some("http://"@ + u.path.skip(text::lead(u.path, '/', 0)))
    } else if "https."@.is_prefix_of(u.host) {
        Some("https://"@ + with_port(u.host.skip(6), u.port) + u.path)
    } else if "http."@.is_prefix_of(u.host) {
        Some("http://"@ + with_port(u.host.skip(5), u.port) + u.path)
    } else {
        None
    }
}

fn push_with_port(out: &mut Vec<char>, host: &[char], port: Option<u16>)
    ensures
        final(out)@ == old(out)@ + with_port(host@, port),
{
    text::push_chars(out, host);
    match port {
        Some(p) => {
            out.push(':');
            text::push_decimal(out, p as usize);
        },
        None => {},
    }
    assert(out@ =~= old(out)@ + with_port(host@, port));
}

/// The page made from a fetched body, given the content type both as sent
/// and lower-cased.
pub open spec fn jrg_body(ct_lower: Seq<char>, content_type: Seq<char>, body: Seq<char>) -> Seq<char> {
    if text::find(ct_lower, "text/html"@) is Some {
        "# Web Page\n\n"@ + stripped_html(body)
            + "\n\n---\n\n> Fetched via JRG→HTTP gateway"@
    } else if text::find(ct_lower, "application/json"@) is Some {
        "# JSON Response\n\n```json\n"@ + body + "\n```"@
    } else if text::find(ct_lower, "text/"@) is Some {
        "# Text Response\n\n```\n"@ + body + "\n```"@
    } else {
        body + "\n\n---\n\nContent-Type: "@ + content_type
    }
}

fn contains_exec(s: &[char], p: &str) -> (r: bool)
    ensures
        r == (text::find(s@, p@) is Some),
{
    let pc = text::chars_of(p);
    text::find_sub(s, pc.as_slice(), 0).is_some()
}

/// The bytes of `b` as characters, one per byte.
fn byte_chars_vec(b: &[u8]) -> (v: Vec<char>)
    ensures
        v@ == byte_chars(b@),
{
    let mut v: Vec<char> = Vec::new();
    let mut i: usize = 0;
    while i < b.len()
        invariant
            i <= b@.len(),
            v@ == byte_chars(b@.take(i as int)),
        decreases b@.len() - i,
    {
        assert(byte_chars(b@.take(i + 1)) =~= byte_chars(b@.take(i as int)).push(b@[i as int] as char));
        v.push(b[i] as char);
        i = i + 1;
    }
    assert(b@.take(b@.len() as int) =~= b@);
    v
}

fn at_ic_exec(s: &[char], i: usize, p: &[char]) -> (r: bool)
    ensures
        r == at_ic(s@, i as int, p@),
{
    if i > s.len() || p.len() > s.len() - i {
        return false;
    }
    let w = text::slice_of(s, i, i + p.len());
    text::chars_eq_ic(w.as_slice(), p)
}

fn tag_at_exec(s: &[char], i: usize, name: &[char]) -> (r: bool)
    ensures
        r == tag_at(s@, i as int, name@),
{
    if i > s.len() || name.len() > s.len() - i || s.len() - i - name.len() < 2 {
        return false;
    }
    if s[i] != '<' {
        return false;
    }
    if !at_ic_exec(s, i + 1, name) {
        return false;
    }
    let c = s[i + 1 + name.len()];
    c == '>' || c == ' ' || c == '/' || c == '\t' || c == '\n'
}

fn ends_in_exec(out: &Vec<char>, a: char, b: char) -> (r: bool)
    ensures
        r == ends_in(out@, a, b),
{
    out.len() == 0 || out[out.len() - 1] == a || out[out.len() - 1] == b
}

fn tag_end_exec(s: &[char], i: usize) -> (r: Option<usize>)
    requires
        i <= s@.len(),
    ensures
        match tag_end(s@, i as int) {
            Some(e) => r == Some(e as usize) && i <= e < s@.len(),
            None => r is None,
        },
{
    proof {
        text::lemma_char_from(s@, '>', i as int);
    }
    let e = text::find_char(s, '>', i);
    if e < s.len() {
        Some(e)
    } else {
        None
    }
}

/// Appends a link's text and target as `anchor_output` gives them.
fn push_anchor(out: &mut Vec<char>, anchor_text: &Vec<char>, href: &Vec<char>)
    ensures
        final(out)@ == old(out)@ + anchor_output(anchor_text@, href@),
{
    let t = text::trimmed(anchor_text.as_slice());
    text::push_chars(out, t.as_slice());
    if t.len() > 0 && href.len() > 0 {
        text::push_str(out, " (");
        text::push_chars(out, href.as_slice());
        out.push(')');
    }
    assert(out@ =~= old(out)@ + anchor_output(anchor_text@, href@));
}

/// The resolver's reading state, as values.
struct StripRun {
    in_tag: bool,
    in_script: bool,
    in_style: bool,
    in_anchor: bool,
    href: Vec<char>,
    anchor_text: Vec<char>,
    out: Vec<char>,
}

impl StripRun {
    spec fn state(&self) -> StripState {
        StripState {
            in_tag: self.in_tag,
            in_script: self.in_script,
            in_style: self.in_style,
            in_anchor: self.in_anchor,
            href: self.href@,
            anchor_text: self.anchor_text@,
            out: self.out@,
        }
    }
}

/// Reads web pages for Jaringan clients. The HTTP client is made from these
/// settings where a page is fetched.
pub struct JrgToHttpResolver {
    config: JrgToHttpResolverConfig,
}

impl JrgToHttpResolver {
    pub closed spec fn spec_config(&self) -> JrgToHttpResolverConfig {
        self.config
    }

    pub fn new(config: JrgToHttpResolverConfig) -> (r: JrgToHttpResolver)
        ensures
            r.spec_config() == config,
    {
        JrgToHttpResolver { config }
    }

    pub fn config(&self) -> (r: &JrgToHttpResolverConfig)
        ensures
            *r == self.spec_config(),
    {
        &self.config
    }

    /// The readable text of an HTML page: tags dropped (a space where one
    /// stood), scripts and styles skipped, links written as their text with
    /// the target in brackets, images as their `alt` text, `<br>` as a line
    /// break, and whitespace runs other than line breaks made one space.
    /// The text outside tags keeps its characters as written.
    pub fn strip_html_tags(html: &str) -> (r: String)
        ensures
            r@ == stripped_html(html@),
    {
        let s = text::chars_of(html);
        let mut st = StripRun {
            in_tag: false,
            in_script: false,
            in_style: false,
            in_anchor: false,
            href: Vec::new(),
            anchor_text: Vec::new(),
            out: Vec::new(),
        };
        let mut i: usize = 0;
        assert(st.state() == strip_run(s@, 0));
        while i < s.len()
            invariant
                s@ == html@,
                i <= s@.len(),
                st.state() == strip_run(s@, i as int),
            decreases s@.len() - i,
        {
            strip_step_exec(s.as_slice(), i, &mut st);
            i = i + 1;
        }
        if st.in_anchor {
            let mut out: Vec<char> = Vec::new();
            std::mem::swap(&mut out, &mut st.out);
            push_anchor(&mut out, &st.anchor_text, &st.href);
            st.out = out;
        }
        let c = collapse_ws_exec(st.out.as_slice());
        let t = text::trimmed(c.as_slice());
        text::string_from(t.as_slice())
    }

    /// The page made from a fetched body: HTML as readable text, JSON and
    /// other text in a code block, anything else followed by its content
    /// type. The content type is matched lower-cased.
    pub fn http_to_jrg_body(content_type: &str, body: &str) -> (r: String)
        ensures
            r@ == jrg_body(text::unicode_lower(content_type@), content_type@, body@),
    {
        let ct_lower = text::to_lowercase(content_type);
        Self::http_to_jrg_body_lowered(ct_lower.as_str(), content_type, body)
    }

    /// `http_to_jrg_body` with the lower-cased content type already made.
    pub fn http_to_jrg_body_lowered(ct_lower: &str, content_type: &str, body: &str) -> (r: String)
        ensures
            r@ == jrg_body(ct_lower@, content_type@, body@),
    {
        let l = text::chars_of(ct_lower);
        let mut out: Vec<char> = Vec::new();
        if contains_exec(l.as_slice(), "text/html") {
            text::push_str(&mut out, "# Web Page\n\n");
            let cleaned = Self::strip_html_tags(body);
            text::push_str(&mut out, cleaned.as_str());
            text::push_str(&mut out, "\n\n---\n\n> Fetched via JRG→HTTP gateway");
        } else if contains_exec(l.as_slice(), "application/json") {
            text::push_str(&mut out, "# JSON Response\n\n```json\n");
            text::push_str(&mut out, body);
            text::push_str(&mut out, "\n```");
        } else if contains_exec(l.as_slice(), "text/") {
            text::push_str(&mut out, "# Text Response\n\n```\n");
            text::push_str(&mut out, body);
            text::push_str(&mut out, "\n```");
        } else {
            text::push_str(&mut out, body);
            text::push_str(&mut out, "\n\n---\n\nContent-Type: ");
            text::push_str(&mut out, content_type);
        }
        text::string_from(out.as_slice())
    }

    /// Whether a URL is meant for the web gateway.
    pub fn is_gateway_url(url: &JaringanUrl) -> (r: bool)
        ensures
            r == gateway_host(url@.host),
    {
        let h = text::chars_of(url.host());
        text::chars_eq(h.as_slice(), text::chars_of("http").as_slice())
            || text::starts_with(h.as_slice(), text::chars_of("http.").as_slice())
            || text::starts_with(h.as_slice(), text::chars_of("https.").as_slice())
    }

    /// The web address a gateway URL stands for; see `http_url_of`.
    pub fn extract_http_url(url: &JaringanUrl) -> (r: Result<String, GatewayError>)
        ensures
            match http_url_of(url@) {
                Some(a) => r matches Ok(x) && x@ == a,
                None => r matches Err(GatewayError::Config(m)) && m@
                    == "cannot extract HTTP URL from JRG URL: "@ + url@.serialization,
            },
    {
        proof {
            reveal_strlit("https.");
            reveal_strlit("http.");
        }
        let h = text::chars_of(url.host());
        let path = text::chars_of(url.path());
        let https = text::chars_of("https.");
        let http = text::chars_of("http.");
        let mut out: Vec<char> = Vec::new();
        if text::chars_eq(h.as_slice(), text::chars_of("http").as_slice()) {
            text::push_str(&mut out, "http://");
            let k = text::lead_count(path.as_slice(), '/');
            proof {
                text::lemma_lead(path@, '/', 0);
            }
            let rest = text::slice_of(path.as_slice(), k, path.len());
            assert(rest@ =~= path@.skip(k as int));
            text::push_chars(&mut out, rest.as_slice());
        } else if text::starts_with(h.as_slice(), https.as_slice()) {
            text::push_str(&mut out, "https://");
            let rest = text::slice_of(h.as_slice(), 6, h.len());
            assert(rest@ =~= h@.skip(6));
            push_with_port(&mut out, rest.as_slice(), url.port());
            text::push_chars(&mut out, path.as_slice());
        } else if text::starts_with(h.as_slice(), http.as_slice()) {
            text::push_str(&mut out, "http://");
            let rest = text::slice_of(h.as_slice(), 5, h.len());
            assert(rest@ =~= h@.skip(5));
            push_with_port(&mut out, rest.as_slice(), url.port());
            text::push_chars(&mut out, path.as_slice());
        } else {
            text::push_str(&mut out, "cannot extract HTTP URL from JRG URL: ");
            text::push_str(&mut out, url.as_str());
            return Err(GatewayError::Config(text::string_from(out.as_slice())));
        }
        Ok(text::string_from(out.as_slice()))
    }

    /// Whether `remaining` starts with an opening tag named `tag_name`.
    pub fn is_tag(remaining: &[u8], tag_name: &[u8]) -> (r: bool)
        ensures
            r == tag_at(byte_chars(remaining@), 0, byte_chars(tag_name@)),
    {
        let s = byte_chars_vec(remaining);
        let n = byte_chars_vec(tag_name);
        tag_at_exec(s.as_slice(), 0, n.as_slice())
    }

    /// The position of the first `>` in `remaining`.
    pub fn find_tag_end(remaining: &[u8]) -> (r: Option<usize>)
        ensures
            match tag_end(byte_chars(remaining@), 0) {
                Some(e) => r == Some(e as usize),
                None => r is None,
            },
    {
        let s = byte_chars_vec(remaining);
        tag_end_exec(s.as_slice(), 0)
    }

    /// The value of the double-quoted attribute `attr_name` in a tag.
    pub fn extract_attr(tag_bytes: &[u8], attr_name: &str) -> (r: Option<String>)
        ensures
            match attr_value(tag_bytes@, attr_name@) {
                Some(v) => r matches Some(x) && x@ == v,
                None => r is None,
            },
    {
        let t = match crate::utf8::text_of_bytes(tag_bytes) {
            Some(t) => t,
            None => {
                return None;
            },
        };
        let cs = text::chars_of(t.as_str());
        match attr_in_exec(cs.as_slice(), attr_name) {
            Some(v) => Some(text::string_from(v.as_slice())),
            None => None,
        }
    }
}

/// `attr_in` as a new vector.
fn attr_in_exec(cs: &[char], attr_name: &str) -> (r: Option<Vec<char>>)
    ensures
        match attr_in(cs@, attr_name@) {
            Some(v) => r matches Some(x) && x@ == v,
            None => r is None,
        },
{
    let mut p = text::chars_of(attr_name);
    p.push('=');
    p.push('"');
    assert(p@ =~= attr_name@ + seq!['=', '"']);
    match text::find_sub(cs, p.as_slice(), 0) {
        None => None,
        Some(k) => {
            proof {
                text::lemma_find_from_bounds(cs@, p@, 0);
            }
            assert(text::occurs_at(cs@, p@, k as int));
            assert(cs@.len() == cs.len());
            let v = k + p.len();
            proof {
                text::lemma_char_from(cs@, '"', v as int);
            }
            let e = text::find_char(cs, '"', v);
            if e < cs.len() {
                Some(text::slice_of(cs, v, e))
            } else {
                None
            }
        },
    }
}

fn collapse_ws_exec(s: &[char]) -> (r: Vec<char>)
    ensures
        r@ == collapse_ws(s@),
{
    let mut out: Vec<char> = Vec::new();
    let mut prev_space = false;
    let mut i: usize = 0;
    while i < s.len()
        invariant
            i <= s@.len(),
            out@ == collapse_ws(s@.take(i as int)),
            prev_space == (i > 0 && is_ws(s@[i - 1]) && s@[i - 1] != '\n'),
        decreases s@.len() - i,
    {
        let c = s[i];
        assert(s@.take(i + 1).drop_last() =~= s@.take(i as int));
        if c == '\n' {
            out.push('\n');
            prev_space = false;
        } else if text::char_is_ws(c) {
            if !prev_space {
                out.push(' ');
                prev_space = true;
            }
        } else {
            out.push(c);
            prev_space = false;
        }
        i = i + 1;
    }
    assert(s@.take(s@.len() as int) =~= s@);
    out
}

/// The tag that starts at `i` read into the state; see `open_tag`.
fn open_tag_exec(s: &[char], i: usize, st: &mut StripRun)
    requires
        i < s@.len(),
    ensures
        final(st).state() == open_tag(s@, i as int, old(st).state()),
{
    let free = !st.in_script && !st.in_style;
    assert(i < s.len());
    st.in_tag = true;
    if at_ic_exec(s, i, text::chars_of("</script>").as_slice()) {
        st.in_script = false;
    } else if at_ic_exec(s, i, text::chars_of("</style>").as_slice()) {
        st.in_style = false;
    } else if free && at_ic_exec(s, i + 1, text::chars_of("script>").as_slice()) {
        st.in_script = true;
    } else if free && at_ic_exec(s, i + 1, text::chars_of("style>").as_slice()) {
        st.in_style = true;
    } else if free && st.in_anchor && at_ic_exec(s, i, text::chars_of("</a>").as_slice()) {
        let mut out: Vec<char> = Vec::new();
        std::mem::swap(&mut out, &mut st.out);
        push_anchor(&mut out, &st.anchor_text, &st.href);
        st.out = out;
        st.in_anchor = false;
        st.href = Vec::new();
        st.anchor_text = Vec::new();
    } else if free && !st.in_anchor && tag_at_exec(s, i, text::chars_of("a").as_slice()) {
        let mut href: Vec<char> = Vec::new();
        match tag_end_exec(s, i) {
            Some(e) => {
                let tag = text::slice_of(s, i, e + 1);
                match attr_in_exec(tag.as_slice(), "href") {
                    Some(h) => {
                        href = h;
                    },
                    None => {},
                }
            },
            None => {},
        }
        st.in_anchor = true;
        st.href = href;
        st.anchor_text = Vec::new();
    } else if free && tag_at_exec(s, i, text::chars_of("br").as_slice()) {
        if !ends_in_exec(&st.out, '\n', ' ') {
            st.out.push('\n');
        }
    } else if free && tag_at_exec(s, i, text::chars_of("img").as_slice()) {
        match tag_end_exec(s, i) {
            Some(e) => {
                let tag = text::slice_of(s, i, e + 1);
                match attr_in_exec(tag.as_slice(), "alt") {
                    Some(a) => {
                        if a.len() > 0 {
                            if !ends_in_exec(&st.out, ' ', ' ') {
                                st.out.push(' ');
                            }
                            text::push_chars(&mut st.out, a.as_slice());
                        }
                    },
                    None => {},
                }
            },
            None => {},
        }
    }
}

/// One character of the page read into the state; see `strip_step`.
fn strip_step_exec(s: &[char], i: usize, st: &mut StripRun)
    requires
        i < s@.len(),
    ensures
        final(st).state() == strip_step(s@, i as int, old(st).state()),
{
    let c = s[i];
    if c == '<' {
        open_tag_exec(s, i, st);
        if !st.in_anchor && !ends_in_exec(&st.out, ' ', '\n') {
            st.out.push(' ');
        }
    } else if st.in_tag {
        if c == '>' {
            st.in_tag = false;
        }
    } else if st.in_script || st.in_style {
    } else if st.in_anchor {
        st.anchor_text.push(c);
    } else {
        st.out.push(c);
    }
}

} // verus!
