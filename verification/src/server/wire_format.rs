//! The HTTP/1.1 request head as bytes: what the relay puts on the wire for a
//! parsed request, stated as functions on sequences and computed into `Vec`s.

use crate::decimal::{decimal, push_decimal};
use crate::server::config::RelayConnectionInfo;
use crate::server::http_request::{header_views, HeaderView, HttpHeaderEntry, HttpRequestInfo, RequestView};
use vstd::prelude::*;
use vstd::utf8::{encode_utf8, is_ascii_chars_encode_utf8};

verus! {

/// The bytes that stand for a string on the wire: its UTF-8 encoding, which
/// is what a `String` holds. Nothing is escaped and nothing is checked.
pub open spec fn text(s: Seq<char>) -> Seq<u8> {
    encode_utf8(s)
}

/// The single space between the parts of the request line.
pub open spec fn sp() -> Seq<u8> {
    text(" "@)
}

/// The line end, carriage return and line feed.
pub open spec fn crlf() -> Seq<u8> {
    text("\r\n"@)
}

/// The request line: method, target and version as they were parsed, a space
/// between them and a line end after them.
pub open spec fn first_line(request: RequestView) -> Seq<u8> {
    text(request.method) + sp() + text(request.uri) + sp() + text(request.protocol_version)
        + crlf()
}

/// The `Host` line. Whether there is one depends on the relay's host; what it
/// says is the request's host.
pub open spec fn host_line(relay_host: Seq<char>, request_host: Seq<char>) -> Seq<u8> {
    if relay_host.len() > 0 {
        text("Host: "@) + text(request_host) + crlf()
    } else {
        Seq::empty()
    }
}

/// The `Content-Length` line, present exactly when the request has a body.
pub open spec fn content_length_line(content_length: nat) -> Seq<u8> {
    if content_length > 0 {
        text("Content-Length: "@) + decimal(content_length) + crlf()
    } else {
        Seq::empty()
    }
}

/// One header field as a line.
pub open spec fn header_line(header: HeaderView) -> Seq<u8> {
    text(header.name) + text(": "@) + text(header.value) + crlf()
}

/// The lines of a list of header fields, one after the other.
pub open spec fn header_lines(headers: Seq<HeaderView>) -> Seq<u8>
    decreases headers.len(),
{
    if headers.len() == 0 {
        Seq::empty()
    } else {
        header_lines(headers.drop_last()) + header_line(headers.last())
    }
}

/// The whole header section: the `Host` line, the `Content-Length` line, the
/// client's own fields, and the empty line that ends the section.
pub open spec fn header_block(relay_host: Seq<char>, request: RequestView) -> Seq<u8> {
    host_line(relay_host, request.host) + content_length_line(request.content_length)
        + header_lines(request.headers) + crlf()
}

/// The fixed words of the format, byte by byte.
pub proof fn lemma_literals()
    ensures
        sp() == seq![0x20u8],
        crlf() == seq![0x0du8, 0x0au8],
        text(": "@) == seq![0x3au8, 0x20u8],
        text("Host: "@) == seq![0x48u8, 0x6fu8, 0x73u8, 0x74u8, 0x3au8, 0x20u8],
        text("Content-Length: "@) == seq![
            0x43u8,
            0x6fu8,
            0x6eu8,
            0x74u8,
            0x65u8,
            0x6eu8,
            0x74u8,
            0x2du8,
            0x4cu8,
            0x65u8,
            0x6eu8,
            0x67u8,
            0x74u8,
            0x68u8,
            0x3au8,
            0x20u8,
        ],
{
    reveal_strlit(" ");
    reveal_strlit("\r\n");
    reveal_strlit(": ");
    reveal_strlit("Host: ");
    reveal_strlit("Content-Length: ");
    is_ascii_chars_encode_utf8(" "@);
    is_ascii_chars_encode_utf8("\r\n"@);
    is_ascii_chars_encode_utf8(": "@);
    is_ascii_chars_encode_utf8("Host: "@);
    is_ascii_chars_encode_utf8("Content-Length: "@);
    assert(sp() =~= seq![0x20u8]);
    assert(crlf() =~= seq![0x0du8, 0x0au8]);
    assert(text(": "@) =~= seq![0x3au8, 0x20u8]);
    assert(text("Host: "@) =~= seq![0x48u8, 0x6fu8, 0x73u8, 0x74u8, 0x3au8, 0x20u8]);
    assert(text("Content-Length: "@) =~= seq![
        0x43u8,
        0x6fu8,
        0x6eu8,
        0x74u8,
        0x65u8,
        0x6eu8,
        0x74u8,
        0x2du8,
        0x4cu8,
        0x65u8,
        0x6eu8,
        0x67u8,
        0x74u8,
        0x68u8,
        0x3au8,
        0x20u8,
    ]);
}

/// The request line is never empty: it holds two spaces and a line end even
/// where the request's own parts are empty.
pub proof fn lemma_first_line_length(request: RequestView)
    ensures
        first_line(request).len() == text(request.method).len() + text(request.uri).len() + text(
            request.protocol_version,
        ).len() + 4,
{
    lemma_literals();
}

/// With a relay host set, the header section opens with a `Host` line, and
/// the line carries the request's host. The relay's host decides that the
/// line is there and nothing else: any other non-empty relay host gives the
/// same header section.
pub proof fn lemma_host_line_carries_request_host(relay_host: Seq<char>, request: RequestView)
    requires
        relay_host.len() > 0,
    ensures
        (text("Host: "@) + text(request.host) + crlf()).is_prefix_of(
            header_block(relay_host, request),
        ),
        forall|other: Seq<char>|
            other.len() > 0 ==> #[trigger] header_block(other, request) == header_block(
                relay_host,
                request,
            ),
{
    let line = text("Host: "@) + text(request.host) + crlf();
    let rest = content_length_line(request.content_length) + header_lines(request.headers)
        + crlf();
    assert(header_block(relay_host, request) =~= line + rest);
}

/// Without a relay host there is no `Host` line, whatever the request's host.
pub proof fn lemma_no_relay_host_no_host_line(request: RequestView)
    ensures
        header_block(Seq::<char>::empty(), request) == content_length_line(
            request.content_length,
        ) + header_lines(request.headers) + crlf(),
{
    assert(header_block(Seq::<char>::empty(), request) =~= content_length_line(
        request.content_length,
    ) + header_lines(request.headers) + crlf());
}

/// A request without a body gets no `Content-Length` line: after the `Host`
/// line, if there is one, the client's own fields follow at once.
pub proof fn lemma_no_body_no_content_length_line(relay_host: Seq<char>, request: RequestView)
    requires
        request.content_length == 0,
    ensures
        content_length_line(request.content_length) == Seq::<u8>::empty(),
        header_block(relay_host, request) == host_line(relay_host, request.host) + header_lines(
            request.headers,
        ) + crlf(),
{
    assert(header_block(relay_host, request) =~= host_line(relay_host, request.host)
        + header_lines(request.headers) + crlf());
}

/// The lines of two lists of fields, one after the other, are the lines of
/// the two lists joined.
pub proof fn lemma_header_lines_concat(a: Seq<HeaderView>, b: Seq<HeaderView>)
    ensures
        header_lines(a + b) == header_lines(a) + header_lines(b),
    decreases b.len(),
{
    if b.len() == 0 {
        assert(a + b =~= a);
        assert(header_lines(a) + header_lines(b) =~= header_lines(a));
    } else {
        lemma_header_lines_concat(a, b.drop_last());
        assert((a + b).drop_last() =~= a + b.drop_last());
        assert((a + b).last() == b.last());
        assert(header_lines(a) + (header_lines(b.drop_last()) + header_line(b.last()))
            =~= (header_lines(a) + header_lines(b.drop_last())) + header_line(b.last()));
    }
}

/// The fields go out in the order in which they came in: the line of each
/// field stands after the lines of all fields before it and before the
/// lines of all fields after it.
pub proof fn lemma_header_order(headers: Seq<HeaderView>, i: int)
    requires
        0 <= i < headers.len(),
    ensures
        header_lines(headers) == header_lines(headers.take(i)) + header_line(headers[i])
            + header_lines(headers.skip(i + 1)),
{
    let before = headers.take(i);
    let after = headers.skip(i + 1);
    let one = seq![headers[i]];
    assert(headers =~= (before + one) + after);
    lemma_header_lines_concat(before + one, after);
    lemma_header_lines_concat(before, one);
    assert(one.drop_last() =~= Seq::<HeaderView>::empty());
    assert(header_lines(one.drop_last()) =~= Seq::<u8>::empty());
    assert(header_lines(one) =~= header_line(headers[i]));
}

/// Whether the client asked to keep its connection open changes nothing that
/// is sent: no `Connection` line is made of it.
pub proof fn lemma_keep_alive_is_not_sent(
    relay_host: Seq<char>,
    request: RequestView,
    keep_alive: bool,
)
    ensures
        first_line(RequestView { keep_alive, ..request }) == first_line(request),
        header_block(relay_host, RequestView { keep_alive, ..request }) == header_block(
            relay_host,
            request,
        ),
{
}

fn push_text(out: &mut Vec<u8>, s: &str)
    ensures
        final(out)@ == old(out)@ + text(s@),
{
    out.extend_from_slice(s.as_bytes());
}

/// Computes the request line of `request`.
pub fn encode_first_line(request: &HttpRequestInfo) -> (line: Vec<u8>)
    ensures
        line@ == first_line(request@),
{
    let mut line: Vec<u8> = Vec::new();
    push_text(&mut line, request.http_first_line.method.as_str());
    push_text(&mut line, " ");
    push_text(&mut line, request.http_first_line.uri.as_str());
    push_text(&mut line, " ");
    push_text(&mut line, request.http_first_line.protocol_version.as_str());
    push_text(&mut line, "\r\n");
    line
}

fn push_header_lines(out: &mut Vec<u8>, headers: &Vec<HttpHeaderEntry>)
    ensures
        final(out)@ == old(out)@ + header_lines(header_views(headers@)),
{
    let ghost views = header_views(headers@);
    let mut i: usize = 0;
    while i < headers.len()
        invariant
            i <= headers.len(),
            views == header_views(headers@),
            out@ == old(out)@ + header_lines(views.take(i as int)),
        decreases headers.len() - i,
    {
        let header = &headers[i];
        push_text(out, header.name.as_str());
        push_text(out, ": ");
        push_text(out, header.value.as_str());
        push_text(out, "\r\n");
        proof {
            let next = views.take(i + 1);
            assert(next.drop_last() == views.take(i as int));
            assert(next.last() == headers@[i as int]@);
        }
        i += 1;
    }
    proof {
        assert(views.take(i as int) == views);
    }
}

/// Computes the header section that goes out for `request` when it is relayed
/// as `relay` says.
pub fn encode_headers(relay: &RelayConnectionInfo, request: &HttpRequestInfo) -> (block: Vec<u8>)
    ensures
        block@ == header_block(relay@.host, request@),
{
    let mut block: Vec<u8> = Vec::new();
    let header = &request.http_request_header;
    if !relay.host.as_str().is_empty() {
        push_text(&mut block, "Host: ");
        push_text(&mut block, header.host.as_str());
        push_text(&mut block, "\r\n");
    }
    if header.content_length > 0 {
        push_text(&mut block, "Content-Length: ");
        push_decimal(&mut block, header.content_length);
        push_text(&mut block, "\r\n");
    }
    push_header_lines(&mut block, &header.headers);
    push_text(&mut block, "\r\n");
    block
}

} // verus!
