//! The text form of a request: the request line, the `Host`,
//! `Action-Token` and `Content-Length` headers, a blank line, the body.

use vstd::prelude::*;
use vstd::string::StringSliceAdditionalSpecFns;
use crate::text;
use crate::jrg_url::{authority_text, from_parsed, parsed_url, url_result, JaringanUrl, JaringanUrlV, UrlErrorV};
use crate::protocol::{
    all_digits, digits_value, skip_ws_exec, to_ws_exec, Request, RequestMethod, WireError,
};
use crate::utf8::byte_len;

verus! {

broadcast use vstd::string::group_string_axioms;

/// The largest request body accepted, in bytes.
pub const MAX_REQUEST_BODY: usize = 10485760;

pub open spec fn opt_text(o: Option<String>) -> Option<Seq<char>> {
    match o {
        Some(s) => Some(s@),
        None => None,
    }
}

/// A request as it is written on the wire.
pub open spec fn request_text(
    method: RequestMethod,
    url: JaringanUrlV,
    token: Option<Seq<char>>,
    body: Seq<char>,
) -> Seq<char> {
    method.name() + seq![' '] + url.serialization + " JRG/0.1\n"@ + "Host: "@ + authority_text(url)
        + seq!['\n'] + match token {
        Some(t) => "Action-Token: "@ + t + seq!['\n'],
        None => Seq::empty(),
    } + if body.len() == 0 {
        Seq::<char>::empty()
    } else {
        "Content-Length: "@ + text::decimal(byte_len(body)) + seq!['\n']
    } + seq!['\n'] + body
}

/// Writes a request in its wire form.
pub fn write_request(request: &Request) -> (r: String)
    ensures
        r@ == request_text(request.method, request.url@, opt_text(request.action_token), request.body@),
{
    let ghost head = request.method.name() + seq![' '] + request.url@.serialization + " JRG/0.1\n"@
        + "Host: "@ + authority_text(request.url@) + seq!['\n'];
    let ghost tok = match opt_text(request.action_token) {
        Some(t) => "Action-Token: "@ + t + seq!['\n'],
        None => Seq::<char>::empty(),
    };
    let mut out = text::chars_of(request.method.as_str());
    out.push(' ');
    text::push_str(&mut out, request.url.as_str());
    text::push_str(&mut out, " JRG/0.1\n");
    text::push_str(&mut out, "Host: ");
    text::push_str(&mut out, request.url.authority().as_str());
    out.push('\n');
    match &request.action_token {
        Some(t) => {
            text::push_str(&mut out, "Action-Token: ");
            text::push_str(&mut out, t.as_str());
            out.push('\n');
        },
        None => {},
    }
    assert(out@ =~= head + tok);
    let ghost with_tok = out@;
    let b = text::chars_of(request.body.as_str());
    if b.len() > 0 {
        text::push_str(&mut out, "Content-Length: ");
        let bs = request.body.as_str().as_bytes();
        let n = bs.len();
        assert(n == byte_len(request.body@));
        text::push_decimal(&mut out, n);
        out.push('\n');
        assert(out@ =~= with_tok + "Content-Length: "@ + text::decimal(byte_len(request.body@)) + seq!['\n']);
    }
    out.push('\n');
    text::push_str(&mut out, request.body.as_str());
    assert(out@ =~= request_text(request.method, request.url@, opt_text(request.action_token), request.body@));
    text::string_from(out.as_slice())
}

/// `usize::from_str`: an optional `+`, then at least one decimal digit,
/// with a value that fits.
pub open spec fn parse_usize(s: Seq<char>) -> Option<nat> {
    let t = if s.len() > 0 && s[0] == '+' {
        s.drop_first()
    } else {
        s
    };
    if t.len() > 0 && all_digits(t) && digits_value(t) <= usize::MAX {
        Some(digits_value(t))
    } else {
        None
    }
}

proof fn lemma_digits_prefix(s: Seq<char>, k: int)
    requires
        0 <= k <= s.len(),
        all_digits(s),
    ensures
        digits_value(s.take(k)) <= digits_value(s),
    decreases s.len() - k,
{
    if k < s.len() {
        lemma_digits_prefix(s, k + 1);
        assert(s.take(k + 1).drop_last() =~= s.take(k));
    } else {
        assert(s.take(k) =~= s);
    }
}

pub(crate) fn parse_usize_exec(s: &[char]) -> (r: Option<usize>)
    ensures
        match parse_usize(s@) {
            Some(n) => r == Some(n as usize),
            None => r is None,
        },
{
    let start: usize = if s.len() > 0 && s[0] == '+' {
        1
    } else {
        0
    };
    let ghost t = if s@.len() > 0 && s@[0] == '+' {
        s@.drop_first()
    } else {
        s@
    };
    assert(t =~= s@.skip(start as int));
    if start >= s.len() {
        return None;
    }
    let mut v: usize = 0;
    let mut i: usize = start;
    while i < s.len()
        invariant
            start <= i <= s@.len(),
            start < s@.len(),
            t == s@.skip(start as int),
            parse_usize(s@) == (if t.len() > 0 && all_digits(t) && digits_value(t) <= usize::MAX {
                Some(digits_value(t))
            } else {
                None
            }),
            forall|j: int| 0 <= j < i - start ==> '0' <= #[trigger] t[j] <= '9',
            v == digits_value(t.take(i - start)),
        decreases s@.len() - i,
    {
        let c = s[i];
        assert(t[i - start] == c);
        if c < '0' || c > '9' {
            assert(!all_digits(t));
            return None;
        }
        let d: usize = (c as u32 - 48) as usize;
        assert(t.take(i - start + 1).drop_last() =~= t.take(i - start));
        if v > (usize::MAX - d) / 10 {
            proof {
                if all_digits(t) {
                    lemma_digits_prefix(t, i - start + 1);
                    assert(digits_value(t.take(i - start + 1)) == v * 10 + d);
                    assert(v * 10 + d > usize::MAX) by (nonlinear_arith)
                        requires
                            v > (usize::MAX - d) / 10,
                            d <= 9,
                    ;
                }
            }
            return None;
        }
        assert(v * 10 + d <= usize::MAX) by (nonlinear_arith)
            requires
                v <= (usize::MAX - d) / 10,
                d <= 9,
        ;
        v = v * 10 + d;
        i = i + 1;
    }
    assert(t.take(s@.len() - start) =~= t);
    Some(v)
}

/// The method a request line names.
pub open spec fn method_named(w: Seq<char>) -> Option<RequestMethod> {
    if w == "GET"@ {
        Some(RequestMethod::Get)
    } else if w == "POST"@ {
        Some(RequestMethod::Post)
    } else {
        None
    }
}

/// The method and target of a request line: its first two words.
pub open spec fn request_line(l: Seq<char>) -> Option<(RequestMethod, Seq<char>)> {
    let a = text::skip_ws_from(l, 0);
    let b = text::ws_from(l, a);
    if a >= l.len() {
        None
    } else {
        match method_named(l.subrange(a, b)) {
            None => None,
            Some(m) => {
                let c = text::skip_ws_from(l, b);
                let d = text::ws_from(l, c);
                if c >= l.len() {
                    None
                } else {
                    Some((m, l.subrange(c, d)))
                }
            },
        }
    }
}

/// What the headers of a request say.
pub ghost struct HeadFields {
    pub host: Seq<char>,
    pub token: Option<Seq<char>>,
    pub length: nat,
}

pub open spec fn no_fields() -> HeadFields {
    HeadFields { host: Seq::empty(), token: None, length: 0 }
}

/// The headers read in order, from `f` on, up to the first blank line; a
/// later header replaces an earlier one. `None` for a `Content-Length`
/// that is not a number.
pub open spec fn fields_from(ls: Seq<Seq<char>>, f: HeadFields) -> Option<HeadFields>
    decreases ls.len(),
{
    if ls.len() == 0 {
        Some(f)
    } else {
        let t = text::trim_end(ls[0]);
        if t.len() == 0 {
            Some(f)
        } else if "Host:"@.is_prefix_of(t) {
            fields_from(ls.drop_first(), HeadFields { host: text::trim(t.skip(5)), ..f })
        } else if "Action-Token:"@.is_prefix_of(t) {
            fields_from(ls.drop_first(), HeadFields { token: Some(text::trim(t.skip(13))), ..f })
        } else if "Content-Length:"@.is_prefix_of(t) {
            match parse_usize(text::trim(t.skip(15))) {
                None => None,
                Some(n) => fields_from(ls.drop_first(), HeadFields { length: n, ..f }),
            }
        } else {
            fields_from(ls.drop_first(), f)
        }
    }
}

/// The URL a request names: a whole `jrg://` URL, or a path on the host
/// the `Host` header gives. `None` when it names neither.
pub open spec fn target_url(target: Seq<char>, host: Seq<char>) -> Option<Result<JaringanUrlV, UrlErrorV>> {
    if "jrg://"@.is_prefix_of(target) {
        Some(from_parsed(parsed_url(target)))
    } else if target.len() > 0 && target[0] == '/' && host.len() > 0 {
        Some(from_parsed(parsed_url("jrg://"@ + host + target)))
    } else {
        None
    }
}

/// A request's line and headers, before its body is read.
#[derive(Debug)]
pub struct RequestHead {
    pub method: RequestMethod,
    pub url: JaringanUrl,
    pub action_token: Option<String>,
    /// The number of body bytes that follow.
    pub content_length: usize,
}

fn method_word(w: &[char]) -> (r: Option<RequestMethod>)
    ensures
        r == method_named(w@),
{
    if text::chars_eq(w, text::chars_of("GET").as_slice()) {
        Some(RequestMethod::Get)
    } else if text::chars_eq(w, text::chars_of("POST").as_slice()) {
        Some(RequestMethod::Post)
    } else {
        None
    }
}

fn request_line_exec(l: &[char]) -> (r: Option<(RequestMethod, Vec<char>)>)
    ensures
        match request_line(l@) {
            Some((m, t)) => r matches Some((x, y)) && x == m && y@ == t,
            None => r is None,
        },
{
    let a = skip_ws_exec(l, 0);
    let b = to_ws_exec(l, a);
    if a >= l.len() {
        return None;
    }
    let w = text::slice_of(l, a, b);
    let m = match method_word(w.as_slice()) {
        None => {
            return None;
        },
        Some(m) => m,
    };
    let c = skip_ws_exec(l, b);
    let d = to_ws_exec(l, c);
    if c >= l.len() {
        return None;
    }
    Some((m, text::slice_of(l, c, d)))
}

/// Reads a request's line and headers (the text before the blank line).
pub fn read_request_head(head: &str) -> (r: Result<RequestHead, WireError>)
    ensures
        ({
            let ls = text::lines(head@);
            if ls.len() == 0 {
                r matches Err(WireError::BadRequest)
            } else {
                match request_line(ls[0]) {
                    None => r matches Err(WireError::BadRequest),
                    Some((m, target)) => match fields_from(ls.drop_first(), no_fields()) {
                        None => r matches Err(WireError::BadRequest),
                        Some(f) => match target_url(target, f.host) {
                            None => r matches Err(WireError::BadRequest),
                            Some(Err(e)) => r matches Err(WireError::Url(x))
                                && crate::jrg_url::url_error_view(x) == e,
                            Some(Ok(u)) => if f.length > MAX_REQUEST_BODY {
                                r matches Err(WireError::PayloadTooLarge)
                            } else {
                                r matches Ok(h) && h.method == m && h.url@ == u && opt_text(h.action_token)
                                    == f.token && h.content_length == f.length
                            },
                        },
                    },
                }
            }
        }),
{
    proof {
        reveal_strlit("Host:");
        reveal_strlit("Action-Token:");
        reveal_strlit("Content-Length:");
    }
    let ls = text::lines_of(text::chars_of(head).as_slice());
    let ghost all = text::views(ls@);
    if ls.len() == 0 {
        return Err(WireError::BadRequest);
    }
    assert(all[0] == ls@[0]@);
    let (method, target) = match request_line_exec(ls[0].as_slice()) {
        None => {
            return Err(WireError::BadRequest);
        },
        Some(x) => x,
    };
    let ghost rest = all.drop_first();
    let mut host: Vec<char> = Vec::new();
    let mut token: Option<String> = None;
    let mut length: usize = 0;
    let mut i: usize = 1;
    let hp = text::chars_of("Host:");
    let tp = text::chars_of("Action-Token:");
    let cp = text::chars_of("Content-Length:");
    assert(rest.skip(0) =~= rest);
    while i < ls.len()
        invariant
            1 <= i <= ls@.len(),
            all == text::views(ls@),
            rest == all.drop_first(),
            hp@ == "Host:"@,
            tp@ == "Action-Token:"@,
            cp@ == "Content-Length:"@,
            all == text::lines(head@),
            all.len() > 0,
            request_line(all[0]) == Some((method, target@)),
            fields_from(rest, no_fields()) == fields_from(
                rest.skip(i - 1),
                HeadFields { host: host@, token: opt_text(token), length: length as nat },
            ),
        ensures
            fields_from(rest, no_fields()) == Some(
                HeadFields { host: host@, token: opt_text(token), length: length as nat },
            ),
        decreases ls@.len() - i,
    {
        proof {
            reveal_strlit("Host:");
            reveal_strlit("Action-Token:");
            reveal_strlit("Content-Length:");
        }
        assert(rest.skip(i - 1)[0] == ls@[i as int]@);
        assert(rest.skip(i - 1).drop_first() =~= rest.skip(i as int));
        let t = text::trimmed_end(ls[i].as_slice());
        if t.len() == 0 {
            assert(t@ =~= Seq::<char>::empty());
            break;
        }
        if text::starts_with(t.as_slice(), hp.as_slice()) {
            host = text::trimmed(text::slice_of(t.as_slice(), 5, t.len()).as_slice());
            assert(t@.subrange(5, t@.len() as int) =~= t@.skip(5));
        } else if text::starts_with(t.as_slice(), tp.as_slice()) {
            let v = text::trimmed(text::slice_of(t.as_slice(), 13, t.len()).as_slice());
            assert(t@.subrange(13, t@.len() as int) =~= t@.skip(13));
            token = Some(text::string_from(v.as_slice()));
        } else if text::starts_with(t.as_slice(), cp.as_slice()) {
            let v = text::trimmed(text::slice_of(t.as_slice(), 15, t.len()).as_slice());
            assert(t@.subrange(15, t@.len() as int) =~= t@.skip(15));
            match parse_usize_exec(v.as_slice()) {
                None => {
                    return Err(WireError::BadRequest);
                },
                Some(n) => {
                    length = n;
                },
            }
        }
        i = i + 1;
        proof {
            if i == ls.len() {
                assert(rest.skip(i - 1) =~= Seq::<Seq<char>>::empty());
            }
        }
    }
    let tc = target;
    let url_result = if text::starts_with(tc.as_slice(), text::chars_of("jrg://").as_slice()) {
        JaringanUrl::parse(text::string_from(tc.as_slice()).as_str())
    } else if tc.len() > 0 && tc[0] == '/' && host.len() > 0 {
        let mut full = text::chars_of("jrg://");
        text::push_chars(&mut full, host.as_slice());
        text::push_chars(&mut full, tc.as_slice());
        JaringanUrl::parse(text::string_from(full.as_slice()).as_str())
    } else {
        return Err(WireError::BadRequest);
    };
    let url = match url_result {
        Err(e) => {
            return Err(WireError::Url(e));
        },
        Ok(u) => u,
    };
    if length > MAX_REQUEST_BODY {
        return Err(WireError::PayloadTooLarge);
    }
    Ok(RequestHead { method, url, action_token: token, content_length: length })
}

/// The request, once its body has been read: the body must be UTF-8.
pub fn finish_request(head: RequestHead, body: &[u8]) -> (r: Result<Request, WireError>)
    ensures
        vstd::utf8::valid_utf8(body@) ==> (r matches Ok(x) && x.method == head.method && x.url == head.url
            && x.action_token == head.action_token && x.body@ == vstd::utf8::decode_utf8(body@)),
        !vstd::utf8::valid_utf8(body@) ==> r matches Err(WireError::BadRequest),
{
    match crate::utf8::text_of_bytes(body) {
        None => Err(WireError::BadRequest),
        Some(text) => Ok(
            Request { method: head.method, url: head.url, body: text, action_token: head.action_token },
        ),
    }
}

} // verus!
