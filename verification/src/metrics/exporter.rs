//! The answers of a single-route HTTP server for Prometheus scrapes.
//!
//! Bind it to a private address: it has no authentication, and the metrics
//! reveal your topology.

use vstd::prelude::*;
use vstd::slice::slice_subrange;
use vstd::string::StringExecFns;
use vstd::utf8::{decode_utf8, encode_utf8, valid_utf8};

use crate::text::{
    decimal, find, find_char, from_chars, lemma_find, push_decimal, same_chars, split, split_chars,
    sub_chars, to_chars, trim, trim_chars, views,
};

verus! {

/// Request headers must fit in this many bytes.
pub const MAX_REQUEST_BYTES: usize = 8 * 1024;

/// Where four bytes first stand in `bytes`, or the length.
pub open spec fn find_blank_crlf(bytes: Seq<u8>) -> nat
    decreases bytes.len(),
{
    if bytes.len() < 4 {
        bytes.len()
    } else if bytes[0] == 0x0D && bytes[1] == 0x0A && bytes[2] == 0x0D && bytes[3] == 0x0A {
        0
    } else {
        1 + find_blank_crlf(bytes.drop_first())
    }
}

/// Where two line feeds first stand in `bytes`, or the length.
pub open spec fn find_blank_lf(bytes: Seq<u8>) -> nat
    decreases bytes.len(),
{
    if bytes.len() < 2 {
        bytes.len()
    } else if bytes[0] == 0x0A && bytes[1] == 0x0A {
        0
    } else {
        1 + find_blank_lf(bytes.drop_first())
    }
}

/// Where the headers of a request end: at the first empty line.
pub open spec fn header_end(bytes: Seq<u8>) -> Option<usize> {
    if find_blank_crlf(bytes) < bytes.len() {
        Some(find_blank_crlf(bytes) as usize)
    } else if find_blank_lf(bytes) < bytes.len() {
        Some(find_blank_lf(bytes) as usize)
    } else {
        None
    }
}

/// Where the headers of a request end.
pub fn find_header_end(buf: &[u8]) -> (end: Option<usize>)
    ensures
        end == header_end(buf@),
        end is Some ==> end->Some_0 <= buf@.len(),
{
    let mut i: usize = 0;
    assert(buf@.skip(0) =~= buf@);
    while i < buf.len() && buf.len() - i >= 4
        invariant
            i <= buf@.len(),
            find_blank_crlf(buf@) == i + find_blank_crlf(buf@.skip(i as int)),
        decreases buf@.len() - i,
    {
        if buf[i] == 0x0D && buf[i + 1] == 0x0A && buf[i + 2] == 0x0D && buf[i + 3] == 0x0A {
            return Some(i);
        }
        assert(buf@.skip(i as int).drop_first() =~= buf@.skip(i + 1));
        i = i + 1;
    }
    assert(find_blank_crlf(buf@) == buf@.len());
    let mut k: usize = 0;
    while k < buf.len() && buf.len() - k >= 2
        invariant
            k <= buf@.len(),
            find_blank_crlf(buf@) == buf@.len(),
            find_blank_lf(buf@) == k + find_blank_lf(buf@.skip(k as int)),
        decreases buf@.len() - k,
    {
        if buf[k] == 0x0A && buf[k + 1] == 0x0A {
            return Some(k);
        }
        assert(buf@.skip(k as int).drop_first() =~= buf@.skip(k + 1));
        k = k + 1;
    }
    None
}

/// The text that `String::from_utf8_lossy` makes of bytes.
pub uninterp spec fn lossy(bytes: Seq<u8>) -> Seq<char>;

/// `String::from_utf8_lossy`: the text that `bytes` encode; what is not UTF-8 is
/// replaced, which is left to `std` under a name.
#[verifier::external_body]
fn from_utf8_lossy(bytes: &[u8]) -> (text: String)
    ensures
        text@ == lossy(bytes@),
        valid_utf8(bytes@) ==> text@ == decode_utf8(bytes@),
{
    String::from_utf8_lossy(bytes).into_owned()
}

/// The first line of a text, without the white space around it.
pub open spec fn first_line(text: Seq<char>) -> Seq<char> {
    trim(text.take(find(text, '\n') as int))
}

/// The first line of a text, without the white space around it.
pub fn request_line(text: &str) -> (line: String)
    ensures
        line@ == first_line(text@),
{
    let chars = to_chars(text);
    let end: usize = find_char(chars.as_slice(), '\n');
    let line = sub_chars(chars.as_slice(), 0, end);
    assert(line@ =~= text@.take(end as int));
    from_chars(trim_chars(line))
}

/// How far a request has come.
#[derive(Debug, PartialEq, Eq)]
pub enum Request {
    /// All headers are there; this is the request line.
    Complete(String),
    /// More bytes have to be read.
    Incomplete,
    /// The headers are too large to wait for their end.
    TooLarge,
}

/// Looks at the bytes of a request so far.
pub fn read_request_line(buf: &[u8]) -> (request: Request)
    ensures
        match header_end(buf@) {
            Some(end) => request is Complete && request->Complete_0@ == first_line(
                lossy(buf@.take(end as int)),
            ),
            None => if buf@.len() > MAX_REQUEST_BYTES {
                request is TooLarge
            } else {
                request is Incomplete
            },
        },
{
    match find_header_end(buf) {
        Some(end) => {
            let head = slice_subrange(buf, 0, end);
            assert(head@ =~= buf@.take(end as int));
            Request::Complete(request_line(from_utf8_lossy(head).as_str()))
        },
        None => if buf.len() > MAX_REQUEST_BYTES {
            Request::TooLarge
        } else {
            Request::Incomplete
        },
    }
}

/// What a request asks for.
#[derive(Debug, Clone, Copy, PartialEq, Eq, Structural)]
pub enum Page {
    /// The metrics.
    Metrics,
    /// Whether the gateway runs.
    Health,
    /// The page with the link.
    Index,
    /// Something that does not exist.
    NotFound,
    /// A method that is not served.
    BadMethod,
}

/// The field with this number, or nothing.
pub open spec fn field(fields: Seq<Seq<char>>, i: int) -> Seq<char> {
    if i < fields.len() {
        fields[i]
    } else {
        Seq::empty()
    }
}

/// The page that a request line asks for. A query string does not change it.
pub open spec fn page_of(line: Seq<char>) -> Page {
    let fields = split(line, ' ');
    let method = field(fields, 0);
    let path = split(field(fields, 1), '?')[0];
    if method != "GET"@ && method != "HEAD"@ {
        Page::BadMethod
    } else if path == "/metrics"@ {
        Page::Metrics
    } else if path == "/health"@ || path == "/healthz"@ || path == "/-/healthy"@ {
        Page::Health
    } else if path == "/"@ {
        Page::Index
    } else {
        Page::NotFound
    }
}

fn is_word(chars: &[char], word: &str) -> (yes: bool)
    ensures
        yes == (chars@ == word@),
{
    same_chars(chars, to_chars(word).as_slice())
}

/// The page that a request line asks for.
pub fn requested_page(line: &str) -> (page: Page)
    ensures
        page == page_of(line@),
{
    let chars = to_chars(line);
    let fields = split_chars(chars.as_slice(), ' ');
    let ghost spelled = split(line@, ' ');
    assert(views(fields@).len() == fields@.len());
    assert(forall|i: int| 0 <= i < fields@.len() ==> spelled[i] == fields@[i]@);
    assert(spelled.len() > 0);
    let none: Vec<char> = Vec::new();
    assert(none@ =~= Seq::<char>::empty());
    let method = fields[0].as_slice();
    let target = if fields.len() > 1 {
        fields[1].as_slice()
    } else {
        none.as_slice()
    };
    assert(target@ == field(spelled, 1));
    let end: usize = find_char(target, '?');
    let path = sub_chars(target, 0, end);
    proof {
        lemma_find(target@, '?');
        assert(path@ =~= split(target@, '?')[0]);
    }
    if !is_word(method, "GET") && !is_word(method, "HEAD") {
        Page::BadMethod
    } else if is_word(path, "/metrics") {
        Page::Metrics
    } else if is_word(path, "/health") || is_word(path, "/healthz") || is_word(path, "/-/healthy") {
        Page::Health
    } else if is_word(path, "/") {
        Page::Index
    } else {
        Page::NotFound
    }
}

/// The words for a status code.
pub open spec fn reason(status: u16) -> Seq<char> {
    if status == 200 {
        "OK"@
    } else if status == 404 {
        "Not Found"@
    } else if status == 405 {
        "Method Not Allowed"@
    } else {
        "Error"@
    }
}

/// A whole response.
pub open spec fn response_text(status: u16, content_type: Seq<char>, body: Seq<char>) -> Seq<char> {
    "HTTP/1.1 "@ + decimal(status as nat) + " "@ + reason(status) + "\r\nContent-Type: "@
        + content_type + "\r\nContent-Length: "@ + decimal(encode_utf8(body).len())
        + "\r\nConnection: close\r\n\r\n"@ + body
}

/// Builds a whole response.
pub fn respond(status: u16, content_type: &str, body: &str) -> (response: String)
    ensures
        response@ == response_text(status, content_type@, body@),
{
    let reason = match status {
        200 => "OK",
        404 => "Not Found",
        405 => "Method Not Allowed",
        _ => "Error",
    };
    let mut out = String::new();
    out.append("HTTP/1.1 ");
    push_decimal(&mut out, status as u128);
    out.append(" ");
    out.append(reason);
    out.append("\r\nContent-Type: ");
    out.append(content_type);
    out.append("\r\nContent-Length: ");
    push_decimal(&mut out, body.as_bytes().len() as u128);
    out.append("\r\nConnection: close\r\n\r\n");
    out.append(body);
    assert(out@ =~= response_text(status, content_type@, body@));
    out
}

/// The response for each page.
pub open spec fn answer_text(page: Page, metrics: Seq<char>) -> Seq<char> {
    match page {
        Page::Metrics => response_text(
            200,
            "text/plain; version=0.0.4; charset=utf-8"@,
            metrics,
        ),
        Page::Health => response_text(200, "text/plain; charset=utf-8"@, "ok\n"@),
        Page::Index => response_text(
            200,
            "text/html; charset=utf-8"@,
            "<html><body><a href=\"/metrics\">metrics</a></body></html>\n"@,
        ),
        Page::NotFound => response_text(404, "text/plain; charset=utf-8"@, "not found\n"@),
        Page::BadMethod => response_text(
            405,
            "text/plain; charset=utf-8"@,
            "method not allowed\n"@,
        ),
    }
}

/// The response for a page; `metrics` is the text of the metrics.
pub fn answer(page: Page, metrics: &str) -> (response: String)
    ensures
        response@ == answer_text(page, metrics@),
{
    match page {
        Page::Metrics => respond(200, "text/plain; version=0.0.4; charset=utf-8", metrics),
        Page::Health => respond(200, "text/plain; charset=utf-8", "ok\n"),
        Page::Index => respond(
            200,
            "text/html; charset=utf-8",
            "<html><body><a href=\"/metrics\">metrics</a></body></html>\n",
        ),
        Page::NotFound => respond(404, "text/plain; charset=utf-8", "not found\n"),
        Page::BadMethod => respond(405, "text/plain; charset=utf-8", "method not allowed\n"),
    }
}

/// A query string does not change which page is asked for.
pub proof fn query_does_not_change_the_page(method: Seq<char>, path: Seq<char>, query: Seq<char>)
    requires
        !method.contains(' '),
        !path.contains(' '),
        !path.contains('?'),
        !query.contains(' '),
    ensures
        page_of(method + seq![' '] + (path + seq!['?'] + query)) == page_of(
            method + seq![' '] + path,
        ),
{
    let target = path + seq!['?'] + query;
    assert(!target.contains(' ')) by {
        if target.contains(' ') {
            let i = choose|i: int| 0 <= i < target.len() && target[i] == ' ';
            if i < path.len() {
                assert(path[i] == ' ');
            } else if i > path.len() {
                assert(query[i - path.len() - 1] == ' ');
            }
        }
    }
    crate::text::lemma_split_first(method, ' ', target);
    crate::text::lemma_split_first(method, ' ', path);
    crate::text::lemma_split_none(target, ' ');
    crate::text::lemma_split_none(path, ' ');
    crate::text::lemma_split_first(path, '?', query);
    crate::text::lemma_split_none(path, '?');
}

/// Only `GET` and `HEAD` are served. Of their pages `/metrics` are the metrics,
/// `/health`, `/healthz` and `/-/healthy` say that the gateway runs, `/` is the
/// index, and there is nothing else.
pub proof fn pages_have_their_paths(method: Seq<char>, path: Seq<char>, rest: Seq<char>)
    requires
        !method.contains(' '),
        !path.contains(' '),
        !path.contains('?'),
    ensures
        ({
            let served = method == "GET"@ || method == "HEAD"@;
            let page = page_of(method + seq![' '] + (path + seq![' '] + rest));
            &&& !served ==> page == Page::BadMethod
            &&& served && path == "/metrics"@ ==> page == Page::Metrics
            &&& served && (path == "/health"@ || path == "/healthz"@ || path == "/-/healthy"@)
                ==> page == Page::Health
            &&& served && path == "/"@ ==> page == Page::Index
            &&& served && path != "/metrics"@ && path != "/health"@ && path != "/healthz"@ && path
                != "/-/healthy"@ && path != "/"@ ==> page == Page::NotFound
        }),
{
    let target = path + seq![' '] + rest;
    crate::text::splitting_undoes_joining(method, ' ', target);
    crate::text::splitting_undoes_joining(path, ' ', rest);
    crate::text::splitting_undoes_joining(path, '?', rest);
    let fields = split(method + seq![' '] + target, ' ');
    assert(fields[0] == method);
    assert(fields[1] == split(target, ' ')[0]);
    assert(fields[1] == path);
    assert(split(path, '?')[0] == path);
    reveal_strlit("/metrics");
    reveal_strlit("/health");
    reveal_strlit("/healthz");
    reveal_strlit("/-/healthy");
    reveal_strlit("/");
    assert("/metrics"@[1] == 'm' && "/health"@[1] == 'h' && "/healthz"@[1] == 'h'
        && "/-/healthy"@[1] == '-' && "/"@.len() == 1);
}

/// Each page has its status, its type and its body, and a response says how many
/// bytes its body has.
pub proof fn pages_have_their_answers(metrics: Seq<char>, body: Seq<char>, kind: Seq<char>)
    ensures
        answer_text(Page::Metrics, metrics) == response_text(
            200,
            "text/plain; version=0.0.4; charset=utf-8"@,
            metrics,
        ),
        answer_text(Page::Health, metrics) == response_text(
            200,
            "text/plain; charset=utf-8"@,
            "ok\n"@,
        ),
        answer_text(Page::Index, metrics) == response_text(
            200,
            "text/html; charset=utf-8"@,
            "<html><body><a href=\"/metrics\">metrics</a></body></html>\n"@,
        ),
        answer_text(Page::NotFound, metrics) == response_text(
            404,
            "text/plain; charset=utf-8"@,
            "not found\n"@,
        ),
        answer_text(Page::BadMethod, metrics) == response_text(
            405,
            "text/plain; charset=utf-8"@,
            "method not allowed\n"@,
        ),
        response_text(200, kind, body) == "HTTP/1.1 "@ + decimal(200) + " "@ + "OK"@
            + "\r\nContent-Type: "@ + kind + "\r\nContent-Length: "@ + decimal(
            encode_utf8(body).len(),
        ) + "\r\nConnection: close\r\n\r\n"@ + body,
        reason(404) == "Not Found"@,
        reason(405) == "Method Not Allowed"@,
        reason(500) == "Error"@,
{
}

/// The headers end at the first empty line: at two line breaks with carriage
/// returns, or where there are none of those, at two without. Until then the
/// request is not complete.
pub proof fn headers_end_at_the_empty_line(head: Seq<u8>, rest: Seq<u8>)
    requires
        head.len() + rest.len() + 4 <= usize::MAX,
        forall|i: int| 0 <= i < head.len() ==> #[trigger] head[i] != 0x0A && head[i] != 0x0D,
    ensures
        header_end(head + seq![0x0Du8, 0x0A, 0x0D, 0x0A] + rest) == Some(head.len() as usize),
        header_end(head + seq![0x0Au8, 0x0A]) == Some(head.len() as usize),
        header_end(head) is None,
        header_end(head + seq![0x0Du8, 0x0A]) is None,
        MAX_REQUEST_BYTES == 8192,
{
    lemma_blank_crlf(head, rest);
    lemma_blank_lf(head);
}

proof fn lemma_blank_crlf(head: Seq<u8>, rest: Seq<u8>)
    requires
        forall|i: int| 0 <= i < head.len() ==> #[trigger] head[i] != 0x0A && head[i] != 0x0D,
    ensures
        find_blank_crlf(head + seq![0x0Du8, 0x0A, 0x0D, 0x0A] + rest) == head.len(),
        find_blank_crlf(head + seq![0x0Au8, 0x0A]) == head.len() + 2,
        find_blank_crlf(head) == head.len(),
        find_blank_crlf(head + seq![0x0Du8, 0x0A]) == head.len() + 2,
    decreases head.len(),
{
    let a = head + seq![0x0Du8, 0x0A, 0x0D, 0x0A] + rest;
    let b = head + seq![0x0Au8, 0x0A];
    let c = head + seq![0x0Du8, 0x0A];
    if head.len() > 0 {
        let shorter = head.drop_first();
        assert forall|i: int| 0 <= i < shorter.len() implies #[trigger] shorter[i] != 0x0A
            && shorter[i] != 0x0D by {
            assert(shorter[i] == head[i + 1]);
        }
        lemma_blank_crlf(shorter, rest);
        assert(head[0] != 0x0D);
        assert(a[0] == head[0] && b[0] == head[0] && c[0] == head[0]);
        assert(a.drop_first() =~= shorter + seq![0x0Du8, 0x0A, 0x0D, 0x0A] + rest);
        assert(b.drop_first() =~= shorter + seq![0x0Au8, 0x0A]);
        assert(c.drop_first() =~= shorter + seq![0x0Du8, 0x0A]);
    } else {
        assert(a[0] == 0x0D && a[1] == 0x0A && a[2] == 0x0D && a[3] == 0x0A);
    }
}

proof fn lemma_blank_lf(head: Seq<u8>)
    requires
        forall|i: int| 0 <= i < head.len() ==> #[trigger] head[i] != 0x0A && head[i] != 0x0D,
    ensures
        find_blank_lf(head + seq![0x0Au8, 0x0A]) == head.len(),
        find_blank_lf(head) == head.len(),
        find_blank_lf(head + seq![0x0Du8, 0x0A]) == head.len() + 2,
    decreases head.len(),
{
    let b = head + seq![0x0Au8, 0x0A];
    let c = head + seq![0x0Du8, 0x0A];
    if head.len() > 0 {
        let shorter = head.drop_first();
        assert forall|i: int| 0 <= i < shorter.len() implies #[trigger] shorter[i] != 0x0A
            && shorter[i] != 0x0D by {
            assert(shorter[i] == head[i + 1]);
        }
        lemma_blank_lf(shorter);
        assert(head[0] != 0x0A);
        assert(b[0] == head[0] && c[0] == head[0]);
        assert(b.drop_first() =~= shorter + seq![0x0Au8, 0x0A]);
        assert(c.drop_first() =~= shorter + seq![0x0Du8, 0x0A]);
    } else {
        assert(b[0] == 0x0A && b[1] == 0x0A);
        assert(c[0] == 0x0D && c[1] == 0x0A);
        let d = c.drop_first();
        assert(d.len() == 1);
        assert(find_blank_lf(d) == 1);
        assert(find_blank_lf(c) == 1 + find_blank_lf(d));
    }
}

/// The request line is what stands before the first line break, without the
/// white space round it.
pub proof fn request_lines_are_first_lines(line: Seq<char>, rest: Seq<char>)
    requires
        !line.contains('\n'),
    ensures
        first_line(line) == trim(line),
        first_line(line + seq!['\n'] + rest) == trim(line),
{
    let all = line + seq!['\n'] + rest;
    let n = line.len() as int;
    assert forall|i: int| 0 <= i < n implies line[i] != '\n' && all[i] != '\n' by {
        assert(line.contains(line[i]));
        assert(all[i] == line[i]);
    }
    crate::text::lemma_find_is(line, '\n', n);
    crate::text::lemma_find_is(all, '\n', n);
    assert(line.take(n) =~= line);
    assert(all.take(n) =~= line);
}

/// Whether an empty line with carriage returns stands at a place.
pub open spec fn blank_at(bytes: Seq<u8>, i: int) -> bool {
    0 <= i && i + 4 <= bytes.len() && bytes[i] == 0x0D && bytes[i + 1] == 0x0A && bytes[i + 2]
        == 0x0D && bytes[i + 3] == 0x0A
}

/// Wherever an empty line with carriage returns stands, the headers end at the
/// first of them, whatever bare line feeds stand before it.
pub proof fn carriage_returns_come_first(bytes: Seq<u8>, at: int)
    requires
        bytes.len() <= usize::MAX,
        blank_at(bytes, at),
        forall|i: int| 0 <= i < at ==> !#[trigger] blank_at(bytes, i),
    ensures
        header_end(bytes) == Some(at as usize),
{
    lemma_first_blank(bytes, at);
}

proof fn lemma_first_blank(bytes: Seq<u8>, at: int)
    requires
        blank_at(bytes, at),
        forall|i: int| 0 <= i < at ==> !#[trigger] blank_at(bytes, i),
    ensures
        find_blank_crlf(bytes) == at,
    decreases bytes.len(),
{
    if at > 0 {
        assert(!blank_at(bytes, 0));
        let rest = bytes.drop_first();
        assert forall|i: int| 0 <= i < at - 1 implies !#[trigger] blank_at(rest, i) by {
            assert(!blank_at(bytes, i + 1));
        }
        lemma_first_blank(rest, at - 1);
    }
}

} // verus!
