//! Signing up and logging in to a service: where its register and login
//! pages are, what the command prints about a form, what it posts back, and
//! which stored token belongs to a service. Fetching, posting and the token
//! files are the caller's part.

use vstd::prelude::*;
use crate::text;
use crate::protocol::{parse_u16, parse_u16_exec};
use crate::document::{Block, BlockV, Document, Input, InputV, blocks_view};

verus! {

broadcast use vstd::string::group_string_axioms;

/// The port a service named without one listens on.
pub const DEFAULT_SERVICE_PORT: u16 = 7070;

/// Where a service is reached: a Jaringan host and port, or a web address.
#[derive(Debug)]
pub enum AuthTarget {
    Jrg { host: String, port: u16 },
    Http { base: String },
}

pub ghost enum AuthTargetV {
    Jrg { host: Seq<char>, port: u16 },
    Http { base: Seq<char> },
}

impl View for AuthTarget {
    type V = AuthTargetV;

    open spec fn view(&self) -> AuthTargetV {
        match self {
            AuthTarget::Jrg { host, port } => AuthTargetV::Jrg { host: host@, port: *port },
            AuthTarget::Http { base } => AuthTargetV::Http { base: base@ },
        }
    }
}

/// `s` without any `c` at its end.
pub open spec fn trim_end_char(s: Seq<char>, c: char) -> Seq<char>
    decreases s.len(),
{
    if s.len() > 0 && s.last() == c {
        trim_end_char(s.drop_last(), c)
    } else {
        s
    }
}

/// The host of a `host[:port]` service name; `localhost` is the loopback
/// address.
pub open spec fn service_host(s: Seq<char>) -> Seq<char> {
    let h = s.subrange(0, text::char_from(s, ':', 0));
    if h == "localhost"@ {
        "127.0.0.1"@
    } else {
        h
    }
}

/// The port of a `host[:port]` service name: the text after the first `:`
/// up to the next one, where it is a port number, else the default.
pub open spec fn service_port(s: Seq<char>) -> u16 {
    let c = text::char_from(s, ':', 0);
    if c < s.len() {
        match parse_u16(s.subrange(c + 1, text::char_from(s, ':', c + 1))) {
            Some(p) => p,
            None => DEFAULT_SERVICE_PORT,
        }
    } else {
        DEFAULT_SERVICE_PORT
    }
}

pub open spec fn auth_target_of(s: Seq<char>) -> AuthTargetV {
    if "http://"@.is_prefix_of(s) || "https://"@.is_prefix_of(s) {
        AuthTargetV::Http { base: trim_end_char(s, '/') }
    } else {
        AuthTargetV::Jrg { host: service_host(s), port: service_port(s) }
    }
}

fn trim_end_char_exec(s: &[char], c: char) -> (v: Vec<char>)
    ensures
        v@ == trim_end_char(s@, c),
{
    let mut hi = s.len();
    assert(s@.take(hi as int) =~= s@);
    while hi > 0 && s[hi - 1] == c
        invariant
            hi <= s@.len(),
            trim_end_char(s@.take(hi as int), c) == trim_end_char(s@, c),
        decreases hi,
    {
        assert(s@.take(hi as int).drop_last() =~= s@.take(hi - 1));
        hi = hi - 1;
    }
    proof {
        assert(s@.take(hi as int) =~= s@.subrange(0, hi as int));
    }
    text::slice_of(s, 0, hi)
}

/// Where the service named `service` is reached.
pub fn auth_target(service: &str) -> (r: AuthTarget)
    ensures
        r@ == auth_target_of(service@),
{
    let s = text::chars_of(service);
    let http = text::chars_of("http://");
    let https = text::chars_of("https://");
    if text::starts_with(s.as_slice(), http.as_slice()) || text::starts_with(s.as_slice(), https.as_slice()) {
        let base = trim_end_char_exec(s.as_slice(), '/');
        return AuthTarget::Http { base: text::string_from(base.as_slice()) };
    }
    let c = text::find_char(s.as_slice(), ':', 0);
    proof {
        text::lemma_char_from(s@, ':', 0);
    }
    let h = text::slice_of(s.as_slice(), 0, c);
    let local = text::chars_of("localhost");
    let host = if text::chars_eq(h.as_slice(), local.as_slice()) {
        String::from_str("127.0.0.1")
    } else {
        text::string_from(h.as_slice())
    };
    let mut port: u16 = DEFAULT_SERVICE_PORT;
    if c < s.len() {
        let d = text::find_char(s.as_slice(), ':', c + 1);
        proof {
            text::lemma_char_from(s@, ':', c + 1);
        }
        let p = text::slice_of(s.as_slice(), c + 1, d);
        match parse_u16_exec(p.as_slice()) {
            Some(n) => {
                port = n;
            },
            None => {},
        }
    }
    AuthTarget::Jrg { host, port }
}

/// `p` without a `.jrg` ending, where it has one.
pub open spec fn page_stem(p: Seq<char>) -> Seq<char> {
    if ".jrg"@.is_suffix_of(p) {
        p.subrange(0, p.len() - 4)
    } else {
        p
    }
}

pub open spec fn service_origin(host: Seq<char>, port: u16) -> Seq<char> {
    "jrg://"@ + host + seq![':'] + text::decimal(port as nat)
}

/// The address of a service's page: `jrg://host:port/page`.
pub open spec fn page_address(host: Seq<char>, port: u16, page: Seq<char>) -> Seq<char> {
    service_origin(host, port) + seq!['/'] + page
}

/// The address a page's form is posted to: `jrg://host:port/actions/` and
/// the page's name without `.jrg`.
pub open spec fn action_address(host: Seq<char>, port: u16, page: Seq<char>) -> Seq<char> {
    service_origin(host, port) + "/actions/"@ + page_stem(page)
}

fn push_origin(out: &mut Vec<char>, host: &str, port: u16)
    ensures
        final(out)@ == old(out)@ + service_origin(host@, port),
{
    text::push_str(out, "jrg://");
    text::push_str(out, host);
    out.push(':');
    text::push_decimal(out, port as usize);
}

pub fn auth_page_url(host: &str, port: u16, page: &str) -> (r: String)
    ensures
        r@ == page_address(host@, port, page@),
{
    let mut out: Vec<char> = Vec::new();
    push_origin(&mut out, host, port);
    out.push('/');
    text::push_str(&mut out, page);
    proof {
        assert(out@ =~= page_address(host@, port, page@));
    }
    text::string_from(out.as_slice())
}

pub fn auth_action_url(host: &str, port: u16, page: &str) -> (r: String)
    ensures
        r@ == action_address(host@, port, page@),
{
    let mut out: Vec<char> = Vec::new();
    push_origin(&mut out, host, port);
    text::push_str(&mut out, "/actions/");
    let p = text::chars_of(page);
    let ext = text::chars_of(".jrg");
    proof {
        reveal_strlit(".jrg");
    }
    if text::ends_with(p.as_slice(), ext.as_slice()) {
        let stem = text::slice_of(p.as_slice(), 0, p.len() - 4);
        text::push_chars(&mut out, stem.as_slice());
    } else {
        text::push_chars(&mut out, p.as_slice());
    }
    proof {
        assert(out@ =~= action_address(host@, port, page@));
    }
    text::string_from(out.as_slice())
}

/// The address of a web service's page: its base, `/`, and the page.
pub open spec fn web_page_address(base: Seq<char>, page: Seq<char>) -> Seq<char> {
    base + seq!['/'] + page
}

pub fn auth_web_page_url(base: &str, page: &str) -> (r: String)
    ensures
        r@ == web_page_address(base@, page@),
{
    let mut out = text::chars_of(base);
    out.push('/');
    text::push_str(&mut out, page);
    text::string_from(out.as_slice())
}

/// `s` with every leading copy of `p` taken off, as `str::trim_start_matches`
/// does.
pub open spec fn strip_leading(s: Seq<char>, p: Seq<char>) -> Seq<char>
    decreases s.len(),
{
    if p.len() > 0 && p.is_prefix_of(s) {
        strip_leading(s.skip(p.len() as int), p)
    } else {
        s
    }
}

fn strip_leading_exec(s: &[char], p: &[char]) -> (r: Vec<char>)
    ensures
        r@ == strip_leading(s@, p@),
{
    let mut i: usize = 0;
    assert(s@.skip(0) =~= s@);
    while p.len() > 0 && p.len() <= s.len() - i && text::starts_with(text::slice_of(s, i, s.len()).as_slice(), p)
        invariant
            i <= s@.len(),
            strip_leading(s@.skip(i as int), p@) == strip_leading(s@, p@),
        decreases s@.len() - i,
    {
        proof {
            assert(s@.subrange(i as int, s@.len() as int) =~= s@.skip(i as int));
            assert(s@.skip(i as int).skip(p@.len() as int) =~= s@.skip(i + p@.len()));
        }
        i = i + p.len();
    }
    proof {
        if p@.len() > 0 && i + p@.len() > s@.len() {
            assert(!p@.is_prefix_of(s@.skip(i as int)));
        }
        if p@.len() > 0 && i + p@.len() <= s@.len() {
            assert(s@.subrange(i as int, s@.len() as int) =~= s@.skip(i as int));
        }
    }
    text::slice_of(s, i, s.len())
}

/// The host part of a web service's base: `https://`, then `http://`,
/// taken off its front.
pub open spec fn web_host(base: Seq<char>) -> Seq<char> {
    strip_leading(strip_leading(base, "https://"@), "http://"@)
}

/// The name a token of a web service is stored under, where the answer
/// names none: its host part.
pub fn auth_web_host(base: &str) -> (r: String)
    ensures
        r@ == web_host(base@),
{
    let b = text::chars_of(base);
    let https = text::chars_of("https://");
    let http = text::chars_of("http://");
    let once = strip_leading_exec(b.as_slice(), https.as_slice());
    let twice = strip_leading_exec(once.as_slice(), http.as_slice());
    text::string_from(twice.as_slice())
}

/// The Jaringan address through which the gateway reads a web service's
/// page: `jrg://https.` and the host part, `/`, and the page.
pub open spec fn web_gateway_address(base: Seq<char>, page: Seq<char>) -> Seq<char> {
    "jrg://https."@ + web_host(base) + seq!['/'] + page
}

pub fn auth_web_gateway_url(base: &str, page: &str) -> (r: String)
    ensures
        r@ == web_gateway_address(base@, page@),
{
    let mut out: Vec<char> = Vec::new();
    text::push_str(&mut out, "jrg://https.");
    let h = auth_web_host(base);
    text::push_str(&mut out, h.as_str());
    out.push('/');
    text::push_str(&mut out, page);
    proof {
        assert(out@ =~= web_gateway_address(base@, page@));
    }
    text::string_from(out.as_slice())
}

/// The fields given as `name=value`, in order; one without `=` is left out.
pub open spec fn given_pairs(fs: Seq<Seq<char>>) -> Seq<Seq<char>>
    decreases fs.len(),
{
    if fs.len() == 0 {
        Seq::empty()
    } else {
        let rest = given_pairs(fs.drop_last());
        if text::char_from(fs.last(), '=', 0) < fs.last().len() {
            rest.push(fs.last())
        } else {
            rest
        }
    }
}

/// The body posted to a service's action: the `name=value` fields, joined
/// by `&`.
pub fn auth_form_body(fields: &[String]) -> (r: String)
    ensures
        r@ == text::join(given_pairs(fields@.map_values(|f: String| f@)), seq!['&']),
{
    let ghost fs = fields@.map_values(|f: String| f@);
    let mut pairs: Vec<Vec<char>> = Vec::new();
    let mut i: usize = 0;
    while i < fields.len()
        invariant
            i <= fields@.len(),
            fs == fields@.map_values(|f: String| f@),
            text::views(pairs@) == given_pairs(fs.take(i as int)),
        decreases fields@.len() - i,
    {
        let f = text::chars_of(fields[i].as_str());
        let e = text::find_char(f.as_slice(), '=', 0);
        proof {
            assert(fs.take(i + 1).drop_last() =~= fs.take(i as int));
        }
        if e < f.len() {
            pairs.push(f);
            proof {
                assert(text::views(pairs@) =~= given_pairs(fs.take(i as int)).push(fs[i as int]));
            }
        }
        i = i + 1;
    }
    proof {
        assert(fs.take(fields@.len() as int) =~= fs);
    }
    let sep = ['&'];
    assert(sep@ =~= seq!['&']);
    let v = text::join_vecs(pairs.as_slice(), sep.as_slice());
    text::string_from(v.as_slice())
}

/// The inputs of a page, in order.
pub open spec fn inputs_in(bs: Seq<BlockV>) -> Seq<InputV>
    decreases bs.len(),
{
    if bs.len() == 0 {
        Seq::empty()
    } else {
        let rest = inputs_in(bs.drop_last());
        match bs.last() {
            BlockV::Input(i) => rest.push(i),
            _ => rest,
        }
    }
}

/// The service a page's first button with an `auth` attribute names.
pub open spec fn auth_service_in(bs: Seq<BlockV>) -> Option<Seq<char>>
    decreases bs.len(),
{
    if bs.len() == 0 {
        None
    } else {
        match bs[0] {
            BlockV::Button(b) => if b.auth is Some {
                b.auth
            } else {
                auth_service_in(bs.drop_first())
            },
            _ => auth_service_in(bs.drop_first()),
        }
    }
}

pub fn auth_service(doc: &Document) -> (r: Option<String>)
    ensures
        r matches Some(s) ==> auth_service_in(doc.blocks@.map_values(|b: Block| b@)) == Some(s@),
        r is None ==> auth_service_in(doc.blocks@.map_values(|b: Block| b@)) is None,
{
    let ghost bs = blocks_view(doc.blocks@);
    let mut i: usize = 0;
    assert(bs.skip(0) =~= bs);
    while i < doc.blocks.len()
        invariant
            i <= doc.blocks@.len(),
            bs == blocks_view(doc.blocks@),
            auth_service_in(bs) == auth_service_in(bs.skip(i as int)),
        decreases doc.blocks@.len() - i,
    {
        proof {
            assert(bs.skip(i as int).drop_first() =~= bs.skip(i + 1));
            assert(bs.skip(i as int)[0] == bs[i as int]);
        }
        match &doc.blocks[i] {
            Block::Button(b) => match &b.auth {
                Some(a) => {
                    return Some(text::string_from(text::chars_of(a.as_str()).as_slice()));
                },
                None => {},
            },
            _ => {},
        }
        i = i + 1;
    }
    None
}

/// How an input is listed: `  - label (name=n)`, with `, placeholder=p`
/// before the bracket where it has one.
pub open spec fn input_listing(i: InputV) -> Seq<char> {
    "  - "@ + i.label + " (name="@ + i.name + match i.placeholder {
        Some(p) => ", placeholder="@ + p,
        None => Seq::empty(),
    } + seq![')']
}

pub open spec fn no_fields_line() -> Seq<char> {
    "  (no input fields found — try with -f name=value pairs)"@
}

pub open spec fn usage_line() -> Seq<char> {
    "Use -f name=value to fill fields and submit, e.g.:"@
}

pub open spec fn example_line(service: Seq<char>, name: Seq<char>) -> Seq<char> {
    "  jaringan auth register "@ + service + " -f "@ + name + "='<value>'"@
}

/// What the command prints of a form when no field is given: the heading,
/// each input or a note that there is none, a blank line, how to fill the
/// fields, and an example with the first input.
pub open spec fn form_help(heading: Seq<char>, inputs: Seq<InputV>, service: Seq<char>) -> Seq<Seq<char>> {
    seq![heading] + if inputs.len() == 0 {
        seq![no_fields_line()]
    } else {
        inputs.map_values(|i: InputV| input_listing(i))
    } + seq![Seq::empty(), usage_line()] + if inputs.len() > 0 {
        seq![example_line(service, inputs[0].name)]
    } else {
        Seq::empty()
    }
}

/// The heading of the form listing of a service's page.
pub open spec fn form_heading(host: Seq<char>, port: u16, page: Seq<char>) -> Seq<char> {
    "Form fields on "@ + host + seq![':'] + text::decimal(port as nat) + if page == "register.jrg"@ {
        "/register.jrg"@
    } else {
        "/login.jrg"@
    } + seq![':']
}

pub fn auth_form_heading(host: &str, port: u16, page: &str) -> (r: String)
    ensures
        r@ == form_heading(host@, port, page@),
{
    let mut out: Vec<char> = Vec::new();
    text::push_str(&mut out, "Form fields on ");
    text::push_str(&mut out, host);
    out.push(':');
    text::push_decimal(&mut out, port as usize);
    let p = text::chars_of(page);
    let reg = text::chars_of("register.jrg");
    if text::chars_eq(p.as_slice(), reg.as_slice()) {
        text::push_str(&mut out, "/register.jrg");
    } else {
        text::push_str(&mut out, "/login.jrg");
    }
    out.push(':');
    proof {
        assert(out@ =~= form_heading(host@, port, page@));
    }
    text::string_from(out.as_slice())
}

fn input_listing_exec(inp: &Input) -> (r: String)
    ensures
        r@ == input_listing(inp@),
{
    let mut out: Vec<char> = Vec::new();
    text::push_str(&mut out, "  - ");
    text::push_str(&mut out, inp.label.as_str());
    text::push_str(&mut out, " (name=");
    text::push_str(&mut out, inp.name.as_str());
    match &inp.placeholder {
        Some(p) => {
            text::push_str(&mut out, ", placeholder=");
            text::push_str(&mut out, p.as_str());
        },
        None => {},
    }
    out.push(')');
    proof {
        assert(out@ =~= input_listing(inp@));
    }
    text::string_from(out.as_slice())
}

fn line_of(s: &str) -> (r: String)
    ensures
        r@ == s@,
{
    text::string_from(text::chars_of(s).as_slice())
}

/// The lines printed of the form on `doc` under `heading`, for the command
/// that names `service`.
pub fn auth_form_help(heading: &str, doc: &Document, service: &str) -> (r: Vec<String>)
    ensures
        r@.map_values(|l: String| l@) == form_help(heading@, inputs_in(blocks_view(doc.blocks@)), service@),
{
    let ghost bs = blocks_view(doc.blocks@);
    let mut listed: Vec<String> = Vec::new();
    let mut first: Option<usize> = None;
    let mut i: usize = 0;
    while i < doc.blocks.len()
        invariant
            i <= doc.blocks@.len(),
            bs == blocks_view(doc.blocks@),
            listed@.map_values(|l: String| l@) == inputs_in(bs.take(i as int)).map_values(|x: InputV| input_listing(x)),
            first is None <==> inputs_in(bs.take(i as int)).len() == 0,
            first matches Some(k) ==> k < i && doc.blocks@[k as int] is Input && inputs_in(bs.take(i as int)).len() > 0
                && inputs_in(bs.take(i as int))[0] == bs[k as int]->Input_0,
        decreases doc.blocks@.len() - i,
    {
        proof {
            assert(bs.take(i + 1).drop_last() =~= bs.take(i as int));
            assert(bs.take(i + 1).last() == bs[i as int]);
        }
        match &doc.blocks[i] {
            Block::Input(inp) => {
                let line = input_listing_exec(inp);
                let ghost before = listed@.map_values(|l: String| l@);
                listed.push(line);
                proof {
                    let ins = inputs_in(bs.take(i + 1));
                    assert(ins == inputs_in(bs.take(i as int)).push(inp@));
                    assert(input_listing(inp@) == line@);
                    assert(listed@.map_values(|l: String| l@) =~= before.push(line@));
                    assert(ins.map_values(|x: InputV| input_listing(x)) =~= inputs_in(bs.take(i as int)).map_values(
                        |x: InputV| input_listing(x),
                    ).push(input_listing(inp@)));
                }
                if first.is_none() {
                    first = Some(i);
                }
            },
            _ => {},
        }
        i = i + 1;
    }
    proof {
        assert(bs.take(doc.blocks@.len() as int) =~= bs);
    }
    let ghost ins = inputs_in(bs);
    let mut out: Vec<String> = Vec::new();
    out.push(line_of(heading));
    if listed.len() == 0 {
        out.push(line_of("  (no input fields found — try with -f name=value pairs)"));
    } else {
        let mut j: usize = 0;
        while j < listed.len()
            invariant
                j <= listed@.len(),
                out@.map_values(|l: String| l@) == seq![heading@] + listed@.map_values(|l: String| l@).take(j as int),
            decreases listed@.len() - j,
        {
            let ghost before = out@.map_values(|l: String| l@);
            let line = line_of(listed[j].as_str());
            out.push(line);
            proof {
                assert(listed@.map_values(|l: String| l@)[j as int] == line@);
                assert(out@.map_values(|l: String| l@) =~= before.push(line@));
                assert(listed@.map_values(|l: String| l@).take(j + 1) =~= listed@.map_values(|l: String| l@).take(
                    j as int,
                ).push(line@));
                assert(out@.map_values(|l: String| l@) =~= seq![heading@] + listed@.map_values(|l: String| l@).take(j + 1));
            }
            j = j + 1;
        }
        proof {
            assert(listed@.map_values(|l: String| l@).take(listed@.len() as int) =~= listed@.map_values(|l: String| l@));
        }
    }
    out.push(String::new());
    out.push(line_of("Use -f name=value to fill fields and submit, e.g.:"));
    match first {
        Some(k) => {
            let mut ex: Vec<char> = Vec::new();
            text::push_str(&mut ex, "  jaringan auth register ");
            text::push_str(&mut ex, service);
            text::push_str(&mut ex, " -f ");
            match &doc.blocks[k] {
                Block::Input(inp) => text::push_str(&mut ex, inp.name.as_str()),
                _ => {},
            }
            text::push_str(&mut ex, "='<value>'");
            proof {
                assert(ex@ =~= example_line(service@, ins[0].name));
            }
            out.push(text::string_from(ex.as_slice()));
        },
        None => {},
    }
    proof {
        assert(out@.map_values(|l: String| l@) =~= form_help(heading@, ins, service@));
    }
    out
}

/// Whether a stored token's folder `name` belongs to `service`: the same
/// name, or the service's name followed by `.` or `:`.
pub open spec fn token_folder_matches(name: Seq<char>, service: Seq<char>) -> bool {
    name == service || (service + seq!['.']).is_prefix_of(name) || (service + seq![':']).is_prefix_of(name)
}

pub fn token_folder_for(name: &str, service: &str) -> (r: bool)
    ensures
        r == token_folder_matches(name@, service@),
{
    let n = text::chars_of(name);
    let s = text::chars_of(service);
    let mut dot = text::chars_of(service);
    dot.push('.');
    let mut colon = text::chars_of(service);
    colon.push(':');
    text::chars_eq(n.as_slice(), s.as_slice()) || text::starts_with(n.as_slice(), dot.as_slice())
        || text::starts_with(n.as_slice(), colon.as_slice())
}

} // verus!
