use speck::dev::http::{body_chunk_size, take_body_chunk, take_head_chunk};
use std::io::Cursor;

use speck::dev::http::{format_response_head, header_end, parse_request_head, read_request};

#[test]
fn headers_end_after_the_first_blank_line() {
    assert_eq!(header_end(b"GET / HTTP/1.1\r\nHost: x\r\n\r\nbody"), Some(27));
    assert_eq!(header_end(b"GET / HTTP/1.1\r\nHost: x\r\n"), None);
    assert_eq!(header_end(b"\r\n\r\n\r\n\r\n"), Some(4));
}

#[test]
fn request_heads_give_method_path_and_length() {
    let head = parse_request_head(b"GET /frame?after=3 HTTP/1.1\r\nHost: x\r\n\r\n").unwrap();
    assert_eq!(head.method, b"GET");
    assert_eq!(head.path, b"/frame?after=3");
    assert_eq!(head.content_length, 0);

    let head = parse_request_head(
        b"POST /input?generation=1 HTTP/1.1\r\ncontent-LENGTH: +12 \r\nContent-Length:\t5\r\n\r\n",
    )
    .unwrap();
    assert_eq!(head.method, b"POST");
    assert_eq!(head.content_length, 5);

    let head = parse_request_head("GET\u{3000}/wide HTTP/1.1\r\n\r\n".as_bytes()).unwrap();
    assert_eq!(head.path, b"/wide");
}

#[test]
fn request_heads_are_refused_with_their_reason() {
    let refusal = |head: &[u8]| parse_request_head(head).err().unwrap();
    assert_eq!(refusal(b"\r\n\r\n"), "HTTP request did not include a method");
    assert_eq!(refusal(b"PUT / HTTP/1.1\r\n\r\n"), "development viewer only accepts GET and POST requests");
    assert_eq!(refusal(b"GET\r\n\r\n"), "HTTP request did not include a path");
    assert_eq!(
        refusal(b"POST / HTTP/1.1\r\nContent-Length: five\r\n\r\n"),
        "HTTP Content-Length was not an unsigned integer"
    );
    assert_eq!(
        refusal(b"POST / HTTP/1.1\r\nContent-Length: -1\r\n\r\n"),
        "HTTP Content-Length was not an unsigned integer"
    );
    assert_eq!(refusal(b"POST / HTTP/1.1\r\nContent-Length: 129\r\n\r\n"), "HTTP request body exceeded 128 bytes");
    assert_eq!(refusal(b"GET /\xff HTTP/1.1\r\n\r\n"), "HTTP request headers were not UTF-8");
}

#[test]
fn requests_are_read_with_their_declared_body() {
    let mut stream = Cursor::new(b"POST /input?generation=2 HTTP/1.1\r\nContent-Length: 4\r\n\r\nup KeyA".to_vec());
    let request = read_request(&mut stream).unwrap();
    assert_eq!(request.method, b"POST");
    assert_eq!(request.path, b"/input?generation=2");
    assert_eq!(request.body, b"up K");

    let mut stream = Cursor::new(b"POST / HTTP/1.1\r\nContent-Length: 9\r\n\r\nshort".to_vec());
    assert_eq!(read_request(&mut stream).err().unwrap(), "HTTP request body was truncated");

    let mut stream = Cursor::new(b"GET / HTTP/1.1\r\nHost: x\r\n".to_vec());
    assert_eq!(
        read_request(&mut stream).err().unwrap(),
        "HTTP request ended before its headers were complete"
    );

    let mut stream = Cursor::new(vec![b'a'; 9000]);
    assert_eq!(read_request(&mut stream).err().unwrap(), "HTTP request headers exceeded 8192 bytes");
}

#[test]
fn response_heads_list_every_header() {
    let head = format_response_head("204 No Content", "text/plain", &[("Cache-Control", "no-store")], 0);
    assert_eq!(
        head,
        "HTTP/1.1 204 No Content\r\nContent-Type: text/plain\r\nContent-Length: 0\r\nConnection: close\r\nCache-Control: no-store\r\n\r\n"
    );
}

#[test]
fn request_chunks_are_appended_until_the_stream_ends() {
    let mut received = b"GET".to_vec();
    assert!(take_head_chunk(&mut received, b" / HTTP/1.1").is_ok());
    assert_eq!(received, b"GET / HTTP/1.1".to_vec());
    assert_eq!(
        take_head_chunk(&mut received, b"").unwrap_err(),
        "HTTP request ended before its headers were complete"
    );
    assert_eq!(received, b"GET / HTTP/1.1".to_vec());
    let mut body = Vec::new();
    assert!(take_body_chunk(&mut body, b"{}").is_ok());
    assert_eq!(take_body_chunk(&mut body, b"").unwrap_err(), "HTTP request body was truncated");
    assert_eq!(body, b"{}".to_vec());
    assert_eq!(body_chunk_size(10), 10);
    assert_eq!(body_chunk_size(5000), 1024);
}
