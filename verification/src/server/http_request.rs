//! A client request in parsed form.

use vstd::prelude::*;

verus! {

/// The request line: method, request target and protocol version, each as
/// the client sent it.
#[derive(Clone, Debug, PartialEq, Eq)]
pub struct HttpFirstLine {
    pub method: String,
    pub uri: String,
    pub protocol_version: String,
}

/// One header field as the client sent it.
#[derive(Clone, Debug, PartialEq, Eq)]
pub struct HttpHeaderEntry {
    pub name: String,
    pub value: String,
}

/// The header section: the fields in the client's order, and what the parser
/// derived from them.
#[derive(Clone, Debug, PartialEq, Eq)]
pub struct HttpRequestHeader {
    /// The `Host` field's value; empty when the client sent none.
    pub host: String,
    /// The length of the body in bytes; zero when the request has none.
    pub content_length: u64,
    /// Whether the client asked to keep its connection open.
    pub keep_alive: bool,
    /// Every other field, in the order in which the client sent them.
    pub headers: Vec<HttpHeaderEntry>,
}

/// A parsed client request.
#[derive(Clone, Debug, PartialEq, Eq)]
pub struct HttpRequestInfo {
    pub http_first_line: HttpFirstLine,
    pub http_request_header: HttpRequestHeader,
}

/// A header field as a pair of character sequences.
pub struct HeaderView {
    pub name: Seq<char>,
    pub value: Seq<char>,
}

/// A request as plain mathematical values.
pub struct RequestView {
    pub method: Seq<char>,
    pub uri: Seq<char>,
    pub protocol_version: Seq<char>,
    pub host: Seq<char>,
    pub content_length: nat,
    pub keep_alive: bool,
    pub headers: Seq<HeaderView>,
}

impl View for HttpHeaderEntry {
    type V = HeaderView;

    open spec fn view(&self) -> HeaderView {
        HeaderView { name: self.name@, value: self.value@ }
    }
}

/// The views of a list of header fields, in the same order.
pub open spec fn header_views(headers: Seq<HttpHeaderEntry>) -> Seq<HeaderView> {
    Seq::new(headers.len(), |i: int| headers[i]@)
}

impl View for HttpRequestInfo {
    type V = RequestView;

    open spec fn view(&self) -> RequestView {
        RequestView {
            method: self.http_first_line.method@,
            uri: self.http_first_line.uri@,
            protocol_version: self.http_first_line.protocol_version@,
            host: self.http_request_header.host@,
            content_length: self.http_request_header.content_length as nat,
            keep_alive: self.http_request_header.keep_alive,
            headers: header_views(self.http_request_header.headers@),
        }
    }
}

} // verus!
