use http_relay::server::config::RelayConnectionInfo;
use http_relay::server::http_request::{
    HttpFirstLine, HttpHeaderEntry, HttpRequestHeader, HttpRequestInfo,
};
use http_relay::server::wire_format::{encode_first_line, encode_headers};

fn a_request(content_length: u64, headers: Vec<HttpHeaderEntry>) -> HttpRequestInfo {
    HttpRequestInfo {
        http_first_line: HttpFirstLine {
            method: String::from("DELETE"),
            uri: String::from("http://example.com/x?y=z"),
            protocol_version: String::from("HTTP/1.0"),
        },
        http_request_header: HttpRequestHeader {
            host: String::from("example.com"),
            content_length,
            keep_alive: true,
            headers,
        },
    }
}

fn a_relay(host: &str) -> RelayConnectionInfo {
    RelayConnectionInfo { address: String::from("10.0.0.1"), port: 3128, host: String::from(host) }
}

#[test]
fn encoded_first_line() {
    assert_eq!(
        encode_first_line(&a_request(0, Vec::new())),
        b"DELETE http://example.com/x?y=z HTTP/1.0\r\n".to_vec()
    );
}

#[test]
fn encoded_headers_with_everything() {
    let headers = vec![
        HttpHeaderEntry { name: String::from("X-One"), value: String::from("1") },
        HttpHeaderEntry { name: String::from("X-Two"), value: String::from("") },
    ];
    assert_eq!(
        encode_headers(&a_relay("proxy"), &a_request(42, headers)),
        b"Host: example.com\r\nContent-Length: 42\r\nX-One: 1\r\nX-Two: \r\n\r\n".to_vec()
    );
}

#[test]
fn encoded_headers_with_nothing() {
    assert_eq!(encode_headers(&a_relay(""), &a_request(0, Vec::new())), b"\r\n".to_vec());
}

#[test]
fn encoded_headers_do_not_depend_on_the_relay_host() {
    let first = encode_headers(&a_relay("one.example"), &a_request(1, Vec::new()));
    let second = encode_headers(&a_relay("two.example"), &a_request(1, Vec::new()));
    assert_eq!(first, second);
    assert_eq!(first, b"Host: example.com\r\nContent-Length: 1\r\n\r\n".to_vec());
}

#[test]
fn encoded_content_length_at_the_limit() {
    assert_eq!(
        encode_headers(&a_relay(""), &a_request(u64::MAX, Vec::new())),
        b"Content-Length: 18446744073709551615\r\n\r\n".to_vec()
    );
}
