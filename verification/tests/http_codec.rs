//! Request decoding, response formatting and token encoding.

use http_server_iouring_rev::http::{decode_request, format_response, resource_for_status};
use http_server_iouring_rev::ops::{token_from_user_data, token_to_user_data, Token};

#[test]
fn decode_hello_exact() {
    let (status, file) = decode_request(b"GET / HTTP/1.1\r\n\r\n");
    assert_eq!(status, 200);
    assert_eq!(file, "hello.html\0");
}

#[test]
fn decode_other_first_line() {
    let (status, file) = decode_request(b"GET /x HTTP/1.1\r\n\r\n");
    assert_eq!(status, 404);
    assert_eq!(file, "404.html\0");
}

#[test]
fn decode_empty_input_is_total() {
    let (status, file) = decode_request(b"");
    assert_eq!(status, 404);
    assert_eq!(file, "404.html\0");
}

#[test]
fn decode_line_without_newline() {
    let (status, _) = decode_request(b"GET / HTTP/1.1");
    assert_eq!(status, 200);
}

#[test]
fn decode_bare_line_feed_line_ending() {
    let (status, _) = decode_request(b"GET / HTTP/1.1\nHost: x\n");
    assert_eq!(status, 200);
}

#[test]
fn decode_prefix_only_is_not_a_match() {
    let (status, _) = decode_request(b"GET / HTTP/1.\r\n\r\n");
    assert_eq!(status, 404);
    let (status2, _) = decode_request(b"GET / HTTP/1.10\r\n\r\n");
    assert_eq!(status2, 404);
}

#[test]
fn format_response_hello() {
    let mut out: Vec<u8> = Vec::new();
    format_response(200, 5, b"hello", &mut out);
    assert_eq!(out, b"HTTP/1.1 200 OK\r\nContent-Length: 5\r\n\r\nhello".to_vec());
}

#[test]
fn format_response_not_found() {
    let mut out: Vec<u8> = Vec::new();
    format_response(404, 9, b"not found", &mut out);
    assert_eq!(
        out,
        b"HTTP/1.1 404 NOT FOUND\r\nContent-Length: 9\r\n\r\nnot found".to_vec()
    );
}

#[test]
fn format_response_multidigit_length() {
    let body = vec![120u8; 123];
    let mut out: Vec<u8> = Vec::new();
    format_response(200, 123, &body, &mut out);
    let mut expected = b"HTTP/1.1 200 OK\r\nContent-Length: 123\r\n\r\n".to_vec();
    expected.extend_from_slice(&body);
    assert_eq!(out, expected);
}

#[test]
fn format_response_zero_length() {
    let mut out: Vec<u8> = Vec::new();
    format_response(404, 0, b"", &mut out);
    assert_eq!(out, b"HTTP/1.1 404 NOT FOUND\r\nContent-Length: 0\r\n\r\n".to_vec());
}

#[test]
fn format_response_overwrites_previous_bytes() {
    let mut out: Vec<u8> = vec![1, 2, 3, 4];
    format_response(200, 2, b"ok", &mut out);
    assert_eq!(out, b"HTTP/1.1 200 OK\r\nContent-Length: 2\r\n\r\nok".to_vec());
}

#[test]
fn resource_for_status_mapping() {
    assert_eq!(resource_for_status(200), 1);
    assert_eq!(resource_for_status(404), 0);
    assert_eq!(resource_for_status(500), 0);
}

#[test]
fn token_user_data_round_trip() {
    let t = Token { idx: 7, gen: 3 };
    assert_eq!(token_to_user_data(t), 3u64 * 0x1_0000_0000 + 7);
    assert_eq!(token_from_user_data(token_to_user_data(t)), t);
    let extreme = Token { idx: u32::MAX, gen: u32::MAX };
    assert_eq!(token_from_user_data(token_to_user_data(extreme)), extreme);
}
