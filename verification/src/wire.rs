//! What a response written in its wire form reads back as.

use vstd::prelude::*;
use crate::text;
use crate::text::{free_of, is_ws};
use crate::protocol::{
    all_digits, content_type_text, digits_value, header_state, parse_u16, status_line, status_of,
    status_text, parse_response, tag_of, tag_text, tag_line, response_text, ContentType, ResponseTagV, ResponseV,
    StatusCode,
};

verus! {

broadcast use vstd::string::group_string_axioms;

/// Text that a header line carries unchanged: no line feed inside, and no
/// whitespace at either end.
pub open spec fn wire_value(v: Seq<char>) -> bool {
    &&& free_of(v, '\n')
    &&& v.len() > 0 ==> !is_ws(v[0]) && !is_ws(v.last())
}

/// A key id that a `Tag-Key` line carries unchanged: not empty, not
/// starting with whitespace, and without a space or a line feed.
pub open spec fn wire_key_id(k: Seq<char>) -> bool {
    &&& k.len() > 0
    &&& !is_ws(k[0])
    &&& free_of(k, ' ')
    &&& free_of(k, '\n')
}

/// A tag whose header line reads back as the same tag.
pub open spec fn wire_tag(t: ResponseTagV) -> bool {
    match t {
        ResponseTagV::Redirect { target } => wire_value(target),
        ResponseTagV::Stream => true,
        ResponseTagV::Key { key_id, key_base64 } => wire_key_id(key_id) && wire_value(key_base64),
        ResponseTagV::ContentType { value } => wire_value(value),
    }
}

/// The decimal digits of `n` are digits, and read back as `n`.
pub proof fn lemma_decimal(n: nat)
    ensures
        text::decimal(n).len() > 0,
        all_digits(text::decimal(n)),
        digits_value(text::decimal(n)) == n,
    decreases n,
{
    let d = text::decimal(n);
    let c = text::digit_char(n % 10);
    assert((c as nat) == n % 10 + 48);
    if n < 10 {
        assert(d =~= seq![text::digit_char(n)]);
        assert(d.drop_last() =~= Seq::<char>::empty());
        assert(d.last() == c);
        assert(digits_value(d.drop_last()) == 0);
        assert(digits_value(d) == digits_value(d.drop_last()) * 10 + ((d.last() as nat) - 48) as nat);
    } else {
        lemma_decimal(n / 10);
        assert(d.drop_last() =~= text::decimal(n / 10));
        assert(d.last() == c);
        assert(digits_value(d) == digits_value(d.drop_last()) * 10 + ((d.last() as nat) - 48) as nat);
        assert(n == (n / 10) * 10 + n % 10);
        assert forall|i: int| 0 <= i < d.len() implies '0' <= #[trigger] d[i] <= '9' by {
            if i < d.len() - 1 {
                assert(d[i] == text::decimal(n / 10)[i]);
            }
        }
    }
}

proof fn lemma_parse_decimal(n: u16)
    ensures
        parse_u16(text::decimal(n as nat)) == Some(n),
{
    lemma_decimal(n as nat);
    let d = text::decimal(n as nat);
    assert('0' <= d[0] <= '9');
}

/// `ws_from` stops at the first whitespace of a run of other characters.
proof fn lemma_ws_run(s: Seq<char>, i: int, k: int)
    requires
        0 <= i <= k <= s.len(),
        forall|j: int| i <= j < k ==> !is_ws(#[trigger] s[j]),
        k == s.len() || is_ws(s[k]),
    ensures
        text::ws_from(s, i) == k,
    decreases k - i,
{
    if i < k {
        lemma_ws_run(s, i + 1, k);
    }
}

proof fn lemma_digits_not_ws(d: Seq<char>)
    requires
        all_digits(d),
    ensures
        forall|i: int| 0 <= i < d.len() ==> !is_ws(#[trigger] d[i]),
{
    assert forall|i: int| 0 <= i < d.len() implies !is_ws(#[trigger] d[i]) by {
        assert('0' <= d[i] <= '9');
    }
}

/// A status line reads back as its status.
pub proof fn lemma_status_text(st: StatusCode)
    ensures
        status_line(status_text(st)) == Some(st),
{
    reveal_strlit("JRG/0.1 ");
    reveal_strlit("JRG/0.1");
    let d = text::decimal(st.code() as nat);
    lemma_decimal(st.code() as nat);
    lemma_digits_not_ws(d);
    lemma_parse_decimal(st.code());
    let l = status_text(st);
    let n = d.len() as int;
    assert(l.len() == 9 + n + st.reason().len());
    assert(l[0] == 'J');
    assert(text::skip_ws_from(l, 0) == 0);
    assert forall|j: int| 0 <= j < 7 implies !is_ws(#[trigger] l[j]) by {}
    assert(l[7] == ' ');
    lemma_ws_run(l, 0, 7);
    assert(l.subrange(0, 7) =~= "JRG/0.1"@);
    assert(l[8] == d[0]);
    assert(text::skip_ws_from(l, 8) == 8);
    assert(text::skip_ws_from(l, 7) == 8);
    assert forall|j: int| 8 <= j < 8 + n implies !is_ws(#[trigger] l[j]) by {
        assert(l[j] == d[j - 8]);
    }
    assert(l[8 + n] == ' ');
    lemma_ws_run(l, 8, 8 + n);
    assert(l.subrange(8, 8 + n) =~= d);
    crate::protocol::lemma_status_code_round_trip(st);
}

/// Whether every piece is a line: not empty, and free of line feeds.
pub open spec fn plain_lines(xs: Seq<Seq<char>>) -> bool {
    forall|i: int| 0 <= i < xs.len() ==> (#[trigger] xs[i]).len() > 0 && free_of(xs[i], '\n')
}

/// Lines joined by single line feeds hold no blank line and do not end in
/// a line feed.
proof fn lemma_no_blank(xs: Seq<Seq<char>>)
    requires
        xs.len() > 0,
        plain_lines(xs),
    ensures
        text::join(xs, seq!['\n']).len() > 0,
        text::join(xs, seq!['\n']).last() != '\n',
        forall|j: int|
            0 <= j && j + 1 < text::join(xs, seq!['\n']).len() && #[trigger] text::join(
                xs,
                seq!['\n'],
            )[j] == '\n' ==> text::join(xs, seq!['\n'])[j + 1] != '\n',
    decreases xs.len(),
{
    let jn = text::join(xs, seq!['\n']);
    if xs.len() == 1 {
        assert(xs[0].len() > 0 && free_of(xs[0], '\n'));
    } else {
        let l = text::join(xs.drop_last(), seq!['\n']);
        let x = xs.last();
        assert(plain_lines(xs.drop_last())) by {
            assert forall|i: int| 0 <= i < xs.drop_last().len() implies (#[trigger] xs.drop_last()[i]).len() > 0
                && free_of(xs.drop_last()[i], '\n') by {
                assert(xs.drop_last()[i] == xs[i]);
            }
        }
        lemma_no_blank(xs.drop_last());
        assert(x.len() > 0 && free_of(x, '\n'));
        assert(jn == l + seq!['\n'] + x);
        assert forall|j: int| 0 <= j && j + 1 < jn.len() && #[trigger] jn[j] == '\n' implies jn[j + 1]
            != '\n' by {
            if j + 1 < l.len() {
                assert(jn[j] == l[j]);
                assert(jn[j + 1] == l[j + 1]);
            } else if j + 1 == l.len() {
                assert(jn[j] == l.last());
            } else if j == l.len() {
                assert(jn[j + 1] == x[0]);
            } else {
                assert(jn[j] == x[j - l.len() - 1]);
            }
        }
        assert(jn.last() == x.last());
    }
}

/// `find` gives the first place where the pattern occurs.
proof fn lemma_find_first(s: Seq<char>, p: Seq<char>, k: int)
    requires
        text::occurs_at(s, p, k),
        forall|j: int| 0 <= j < k ==> !text::occurs_at(s, p, j),
    ensures
        text::find(s, p) == Some(k),
{
    text::lemma_find_from_bounds(s, p, 0);
}

/// The lines of single lines joined by line feeds are those lines, when
/// none ends in a carriage return.
proof fn lemma_lines_of_join(xs: Seq<Seq<char>>)
    requires
        xs.len() > 0,
        plain_lines(xs),
        forall|i: int| 0 <= i < xs.len() ==> (#[trigger] xs[i]).last() != '\r',
    ensures
        text::lines(text::join(xs, seq!['\n'])) == xs,
{
    let jn = text::join(xs, seq!['\n']);
    lemma_no_blank(xs);
    assert forall|i: int| 0 <= i < xs.len() implies free_of(#[trigger] xs[i], '\n') by {}
    text::lemma_split_join(xs, '\n');
    text::lemma_split_nl_is_split_on(jn);
    assert(text::strip_crs(xs.drop_last()) =~= xs.drop_last()) by {
        assert forall|i: int| 0 <= i < xs.drop_last().len() implies text::strip_cr(
            #[trigger] xs.drop_last()[i],
        ) == xs.drop_last()[i] by {
            assert(xs.drop_last()[i] == xs[i]);
        }
    }
    assert(xs.drop_last().push(xs.last()) =~= xs);
}

/// The header lines of a response: status, content type, then one per tag.
pub open spec fn header_texts(r: ResponseV) -> Seq<Seq<char>> {
    seq![status_text(r.status), content_type_text(r.content_type)] + r.tags.map_values(
        |t: ResponseTagV| tag_text(t),
    )
}

/// The wire form is the header lines joined by line feeds, a blank line,
/// then the body.
proof fn lemma_response_layout(r: ResponseV)
    ensures
        response_text(r) == text::join(header_texts(r), seq!['\n']) + seq!['\n', '\n'] + r.body,
{
    let st = status_text(r.status);
    let ct = content_type_text(r.content_type);
    let texts = r.tags.map_values(|t: ResponseTagV| tag_text(t));
    let m = r.tags.map_values(|t: ResponseTagV| tag_line(t));
    let xs = seq![ct] + texts;
    let xm = xs.map_values(|l: Seq<char>| l + seq!['\n']);
    assert(xm =~= seq![ct + seq!['\n']] + m) by {
        assert forall|i: int| 0 <= i < xm.len() implies xm[i] == (seq![ct + seq!['\n']] + m)[i] by {
            if i > 0 {
                assert(xs[i] == texts[i - 1]);
            }
        }
    }
    assert(xm.drop_first() =~= m);
    assert(xm.flatten() == xm.first() + xm.drop_first().flatten());
    text::lemma_terminated_join(st, xs);
    assert(seq![st] + xs =~= header_texts(r));
    assert(xm.flatten() =~= ct + seq!['\n'] + m.flatten());
    let jn = text::join(header_texts(r), seq!['\n']);
    assert(st + seq!['\n'] + xm.flatten() == jn + seq!['\n']);
    assert(response_text(r) =~= (st + seq!['\n'] + xm.flatten()) + seq!['\n'] + r.body);
    assert(response_text(r) =~= jn + seq!['\n', '\n'] + r.body);
}

proof fn lemma_free_add(a: Seq<char>, b: Seq<char>, c: char)
    requires
        free_of(a, c),
        free_of(b, c),
    ensures
        free_of(a + b, c),
{
    assert forall|i: int| 0 <= i < (a + b).len() implies (a + b)[i] != c by {
        if i >= a.len() {
            assert((a + b)[i] == b[i - a.len()]);
        }
    }
}

/// A header line as `lines` gives it back: not empty, no line feed, and
/// no carriage return at its end.
pub open spec fn header_line(l: Seq<char>) -> bool {
    &&& l.len() > 0
    &&& free_of(l, '\n')
    &&& l.last() != '\r'
}

proof fn lemma_reason(st: StatusCode)
    ensures
        header_line(st.reason()),
{
    match st {
        StatusCode::Success => reveal_strlit("OK"),
        StatusCode::MovedPermanently => reveal_strlit("Moved Permanently"),
        StatusCode::Found => reveal_strlit("Found"),
        StatusCode::SeeOther => reveal_strlit("See Other"),
        StatusCode::NotModified => reveal_strlit("Not Modified"),
        StatusCode::BadRequest => reveal_strlit("Bad Request"),
        StatusCode::Forbidden => reveal_strlit("Forbidden"),
        StatusCode::NotFound => reveal_strlit("Not Found"),
        StatusCode::Conflict => reveal_strlit("Conflict"),
        StatusCode::Gone => reveal_strlit("Gone"),
        StatusCode::UnprocessableContent => reveal_strlit("Unprocessable Content"),
        StatusCode::TooManyRequests => reveal_strlit("Too Many Requests"),
        StatusCode::ServerError => reveal_strlit("Internal Server Error"),
        StatusCode::NotImplemented => reveal_strlit("Not Implemented"),
        StatusCode::BadGateway => reveal_strlit("Bad Gateway"),
        StatusCode::ServiceUnavailable => reveal_strlit("Service Unavailable"),
    }
}

proof fn lemma_status_line_plain(st: StatusCode)
    ensures
        header_line(status_text(st)),
{
    reveal_strlit("JRG/0.1 ");
    let d = text::decimal(st.code() as nat);
    lemma_decimal(st.code() as nat);
    lemma_digits_not_ws(d);
    lemma_reason(st);
    assert(free_of(d, '\n')) by {
        assert forall|i: int| 0 <= i < d.len() implies d[i] != '\n' by {
            assert(!is_ws(d[i]));
        }
    }
    assert(free_of("JRG/0.1 "@, '\n'));
    lemma_free_add("JRG/0.1 "@, d, '\n');
    lemma_free_add("JRG/0.1 "@ + d, seq![' '], '\n');
    lemma_free_add("JRG/0.1 "@ + d + seq![' '], st.reason(), '\n');
}

proof fn lemma_content_type_line(c: ContentType)
    ensures
        header_line(content_type_text(c)),
        "Content-Type:"@.is_prefix_of(content_type_text(c)),
        text::trim(crate::protocol::after(content_type_text(c), "Content-Type:"@)) == c.header(),
{
    reveal_strlit("Content-Type: ");
    reveal_strlit("Content-Type:");
    reveal_strlit("text/jrg; charset=utf-8");
    reveal_strlit("text/plain; charset=utf-8");
    reveal_strlit("text/jrg-stream; charset=utf-8");
    let l = content_type_text(c);
    let h = c.header();
    assert(l.subrange(0, 13) =~= "Content-Type:"@);
    assert(crate::protocol::after(l, "Content-Type:"@) =~= seq![' '] + h);
    text::lemma_trim_after_spaces(seq![' '], h);
    assert(free_of("Content-Type: "@, '\n'));
    lemma_free_add("Content-Type: "@, h, '\n');
}

/// Trimming a line that starts with other text only cuts its end.
proof fn lemma_trim_cuts_end(l: Seq<char>)
    requires
        l.len() > 0,
        !is_ws(l[0]),
    ensures
        text::back_ws_to(l, 0, l.len() as int) <= l.len(),
        text::trim(l) == l.subrange(0, text::back_ws_to(l, 0, l.len() as int)),
{
    text::lemma_trim_end_back(l, 0, l.len() as int);
    assert(l.subrange(0, l.len() as int) =~= l);
}

/// A tag line other than the stream tag's does not trim to it.
proof fn lemma_not_stream(l: Seq<char>)
    requires
        l.len() > 4,
        l[0] == 'T',
        l[4] != 'S',
    ensures
        text::trim(l) != "Tag-Stream: true"@,
{
    reveal_strlit("Tag-Stream: true");
    lemma_trim_cuts_end(l);
    text::lemma_trim_end_back(l, 0, l.len() as int);
    let b = text::back_ws_to(l, 0, l.len() as int);
    if text::trim(l) == "Tag-Stream: true"@ {
        assert(0 <= b <= l.len());
        assert(text::trim(l).len() == b);
        assert("Tag-Stream: true"@.len() == 16);
        assert(b == 16);
        assert(text::trim(l)[4] == 'S');
        assert(l.subrange(0, b)[4] == l[4]);
    }
}

proof fn lemma_tag_redirect(target: Seq<char>)
    requires
        wire_value(target),
    ensures
        tag_of(tag_text(ResponseTagV::Redirect { target })) == seq![ResponseTagV::Redirect { target }],
        header_line(tag_text(ResponseTagV::Redirect { target })),
        tag_text(ResponseTagV::Redirect { target })[0] == 'T',
{
    reveal_strlit("Tag-Redirect: ");
    reveal_strlit("Tag-Redirect:");
    let l = tag_text(ResponseTagV::Redirect { target });
    assert(l.subrange(0, 13) =~= "Tag-Redirect:"@);
    assert(crate::protocol::after(l, "Tag-Redirect:"@) =~= seq![' '] + target);
    text::lemma_trim_after_spaces(seq![' '], target);
    assert(free_of("Tag-Redirect: "@, '\n'));
    lemma_free_add("Tag-Redirect: "@, target, '\n');
}

proof fn lemma_tag_stream()
    ensures
        tag_of(tag_text(ResponseTagV::Stream)) == seq![ResponseTagV::Stream],
        header_line(tag_text(ResponseTagV::Stream)),
        tag_text(ResponseTagV::Stream)[0] == 'T',
{
    reveal_strlit("Tag-Stream: true");
    reveal_strlit("Tag-Redirect:");
    let l = tag_text(ResponseTagV::Stream);
    assert(!"Tag-Redirect:"@.is_prefix_of(l)) by {
        if "Tag-Redirect:"@.is_prefix_of(l) {
            assert(l.subrange(0, 13)[4] == l[4]);
        }
    }
    text::lemma_trim_plain(l);
}

proof fn lemma_tag_content_type(value: Seq<char>)
    requires
        wire_value(value),
    ensures
        tag_of(tag_text(ResponseTagV::ContentType { value })) == seq![
            ResponseTagV::ContentType { value },
        ],
        header_line(tag_text(ResponseTagV::ContentType { value })),
        tag_text(ResponseTagV::ContentType { value })[0] == 'T',
{
    reveal_strlit("Tag-ContentType: ");
    reveal_strlit("Tag-ContentType:");
    reveal_strlit("Tag-Redirect:");
    reveal_strlit("Tag-Key:");
    let l = tag_text(ResponseTagV::ContentType { value });
    assert(!"Tag-Redirect:"@.is_prefix_of(l)) by {
        if "Tag-Redirect:"@.is_prefix_of(l) {
            assert(l.subrange(0, 13)[4] == l[4]);
        }
    }
    lemma_not_stream(l);
    assert(!"Tag-Key:"@.is_prefix_of(l)) by {
        if "Tag-Key:"@.is_prefix_of(l) {
            assert(l.subrange(0, 8)[4] == l[4]);
        }
    }
    assert(l.subrange(0, 16) =~= "Tag-ContentType:"@);
    assert(crate::protocol::after(l, "Tag-ContentType:"@) =~= seq![' '] + value);
    text::lemma_trim_after_spaces(seq![' '], value);
    assert(free_of("Tag-ContentType: "@, '\n'));
    lemma_free_add("Tag-ContentType: "@, value, '\n');
}

proof fn lemma_tag_key(key_id: Seq<char>, key_base64: Seq<char>)
    requires
        wire_key_id(key_id),
        wire_value(key_base64),
    ensures
        tag_of(tag_text(ResponseTagV::Key { key_id, key_base64 })) == seq![
            ResponseTagV::Key { key_id, key_base64 },
        ],
        header_line(tag_text(ResponseTagV::Key { key_id, key_base64 })),
        tag_text(ResponseTagV::Key { key_id, key_base64 })[0] == 'T',
{
    reveal_strlit("Tag-Key: ");
    reveal_strlit("Tag-Key:");
    reveal_strlit(" ed25519:");
    reveal_strlit("ed25519:");
    reveal_strlit("Tag-Redirect:");
    let l = tag_text(ResponseTagV::Key { key_id, key_base64 });
    let n = key_id.len() as int;
    assert(!"Tag-Redirect:"@.is_prefix_of(l)) by {
        if "Tag-Redirect:"@.is_prefix_of(l) {
            assert(l.subrange(0, 13)[4] == l[4]);
        }
    }
    lemma_not_stream(l);
    assert(l.subrange(0, 8) =~= "Tag-Key:"@);
    let v0 = key_id + " ed25519:"@ + key_base64;
    assert(crate::protocol::after(l, "Tag-Key:"@) =~= seq![' '] + v0);
    assert(v0[0] == key_id[0]);
    assert(v0.last() != ' ' && !is_ws(v0.last())) by {
        if key_base64.len() > 0 {
            assert(v0.last() == key_base64.last());
        } else {
            assert(v0.last() == ':');
        }
    }
    text::lemma_trim_after_spaces(seq![' '], v0);
    text::lemma_char_from(v0, ' ', 0);
    let k = text::char_from(v0, ' ', 0);
    assert(v0[n] == ' ');
    assert(k == n) by {
        if k < n {
            assert(v0[k] == key_id[k]);
        }
    }
    assert(v0.skip(k + 1) =~= "ed25519:"@ + key_base64);
    assert(v0.skip(k + 1).subrange(0, 8) =~= "ed25519:"@);
    assert(v0.take(k) =~= key_id);
    assert(crate::protocol::after(v0.skip(k + 1), "ed25519:"@) =~= key_base64);
    assert(free_of("Tag-Key: "@, '\n'));
    assert(free_of(" ed25519:"@, '\n'));
    lemma_free_add("Tag-Key: "@, key_id, '\n');
    lemma_free_add("Tag-Key: "@ + key_id, " ed25519:"@, '\n');
    lemma_free_add("Tag-Key: "@ + key_id + " ed25519:"@, key_base64, '\n');
    assert(l.last() == v0.last());
}

/// A tag's header line reads back as the tag.
pub proof fn lemma_tag_text(t: ResponseTagV)
    requires
        wire_tag(t),
    ensures
        tag_of(tag_text(t)) == seq![t],
        header_line(tag_text(t)),
        !"Content-Type:"@.is_prefix_of(tag_text(t)),
{
    reveal_strlit("Content-Type:");
    match t {
        ResponseTagV::Redirect { target } => lemma_tag_redirect(target),
        ResponseTagV::Stream => lemma_tag_stream(),
        ResponseTagV::Key { key_id, key_base64 } => lemma_tag_key(key_id, key_base64),
        ResponseTagV::ContentType { value } => lemma_tag_content_type(value),
    }
    let l = tag_text(t);
    if "Content-Type:"@.is_prefix_of(l) {
        assert(l.subrange(0, 13)[0] == l[0]);
    }
}

/// The header lines after the status line give back the content type and
/// the tags.
proof fn lemma_header_state(c: ContentType, tags: Seq<ResponseTagV>)
    requires
        forall|i: int| 0 <= i < tags.len() ==> wire_tag(#[trigger] tags[i]),
    ensures
        header_state(seq![content_type_text(c)] + tags.map_values(|t: ResponseTagV| tag_text(t)))
            == (Some(c), tags),
    decreases tags.len(),
{
    let ls = seq![content_type_text(c)] + tags.map_values(|t: ResponseTagV| tag_text(t));
    if tags.len() == 0 {
        assert(ls.drop_last() =~= Seq::<Seq<char>>::empty());
        assert(ls.last() == content_type_text(c));
        lemma_content_type_line(c);
        crate::protocol::lemma_content_type_round_trip(c);
        assert(header_state(ls.drop_last()) == (None::<ContentType>, Seq::<ResponseTagV>::empty()));
        assert(tags =~= Seq::<ResponseTagV>::empty());
    } else {
        let front = tags.drop_last();
        lemma_header_state(c, front);
        assert(ls.drop_last() =~= seq![content_type_text(c)] + front.map_values(
            |t: ResponseTagV| tag_text(t),
        ));
        assert(ls.last() == tag_text(tags.last()));
        lemma_tag_text(tags.last());
        assert(header_state(ls.drop_last()) == (Some(c), front));
        assert(header_state(ls) == (Some(c), front + tag_of(ls.last())));
        assert(front + seq![tags.last()] =~= tags);
    }
}

/// A response written in its wire form reads back as the same response,
/// whenever the values of its tags can stand in a header line unchanged.
pub proof fn lemma_response_round_trip(r: ResponseV)
    requires
        forall|i: int| 0 <= i < r.tags.len() ==> wire_tag(#[trigger] r.tags[i]),
    ensures
        parse_response(response_text(r)) == Some(r),
{
    let xs = header_texts(r);
    let jn = text::join(xs, seq!['\n']);
    let s = response_text(r);
    lemma_response_layout(r);
    lemma_status_line_plain(r.status);
    lemma_content_type_line(r.content_type);
    assert forall|i: int| 0 <= i < xs.len() implies header_line(#[trigger] xs[i]) by {
        if i >= 2 {
            assert(xs[i] == tag_text(r.tags[i - 2]));
            lemma_tag_text(r.tags[i - 2]);
        }
    }
    lemma_no_blank(xs);
    lemma_lines_of_join(xs);
    let sep = seq!['\n', '\n'];
    assert(s.subrange(jn.len() as int, jn.len() as int + 2) =~= sep);
    assert forall|j: int| 0 <= j < jn.len() implies !text::occurs_at(s, sep, j) by {
        if text::occurs_at(s, sep, j) {
            assert(s.subrange(j, j + 2)[0] == s[j]);
            assert(s.subrange(j, j + 2)[1] == s[j + 1]);
            assert(s[j] == jn[j]);
            if j + 1 < jn.len() {
                assert(s[j + 1] == jn[j + 1]);
            }
        }
    }
    lemma_find_first(s, sep, jn.len() as int);
    assert(s.take(jn.len() as int) =~= jn);
    lemma_status_text(r.status);
    assert(xs.drop_first() =~= seq![content_type_text(r.content_type)] + r.tags.map_values(
        |t: ResponseTagV| tag_text(t),
    ));
    lemma_header_state(r.content_type, r.tags);
    assert(s.skip(jn.len() as int + 2) =~= r.body);
}

} // verus!
