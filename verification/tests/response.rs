use bytes::Bytes;
use libdeflater::Decompressor;
use mini_http::gzip::gzip_encode;
use mini_http::response::{
    encode_response, HttpResponse, HttpResponseBuilder, HttpResponseWriter,
};
use mini_http::server::MemoryStream;
use mini_http::shared::{HttpEncodingScheme, HttpHeaders};

fn header<'a>(response: &'a HttpResponse, name: &str) -> Option<&'a str> {
    response.headers.get(name).map(|v| v.as_str())
}

fn gunzip(stream: &[u8], size: usize) -> Vec<u8> {
    let mut out = vec![0u8; size];
    let n = Decompressor::new().gzip_decompress(stream, &mut out).unwrap();
    out.truncate(n);
    out
}

#[test]
fn default_draft_builds_a_bare_200() {
    let response = HttpResponseBuilder::default().build();
    assert_eq!(response.status_code, 200);
    assert_eq!(response.status_message, None);
    assert_eq!(response.headers.len(), 0);
    assert!(response.body.is_none());
}

#[test]
fn status_sets_code_and_message() {
    let response = HttpResponseBuilder::default().status(404, Some("Not Found")).build();
    assert_eq!(response.status_code, 404);
    assert_eq!(response.status_message.as_deref(), Some("Not Found"));
    let response = HttpResponseBuilder::default()
        .status(404, Some("Not Found"))
        .status(204, None)
        .build();
    assert_eq!(response.status_code, 204);
    assert_eq!(response.status_message, None);
}

#[test]
fn body_gets_length_and_default_type() {
    let response = HttpResponseBuilder::default().body(Bytes::from("hello, world")).build();
    assert_eq!(header(&response, "content-type"), Some("text/plain"));
    assert_eq!(header(&response, "content-length"), Some("12"));
    assert_eq!(header(&response, "content-encoding"), None);
    assert_eq!(response.body.unwrap().as_ref(), b"hello, world");
    assert_eq!(response.headers.len(), 2);
}

#[test]
fn empty_body_is_still_a_body() {
    let response = HttpResponseBuilder::default().body(Bytes::new()).build();
    assert_eq!(header(&response, "content-length"), Some("0"));
    assert_eq!(header(&response, "content-type"), Some("text/plain"));
    assert_eq!(response.body.unwrap().len(), 0);
}

#[test]
fn explicit_content_type_is_kept() {
    let response = HttpResponseBuilder::default()
        .header("Content-Type", "application/json")
        .body(Bytes::from("{}"))
        .build();
    assert_eq!(header(&response, "content-type"), Some("application/json"));
    assert_eq!(header(&response, "content-length"), Some("2"));
}

#[test]
fn explicit_content_length_is_replaced() {
    let response = HttpResponseBuilder::default()
        .header("Content-Length", "999")
        .body(Bytes::from("abc"))
        .build();
    assert_eq!(header(&response, "content-length"), Some("3"));
}

#[test]
fn without_body_the_headers_are_taken_as_they_are() {
    let response = HttpResponseBuilder::default()
        .header("X-A", "1")
        .encode(vec![HttpEncodingScheme::Gzip])
        .build();
    assert!(response.body.is_none());
    assert_eq!(response.headers.len(), 2);
    assert_eq!(header(&response, "x-a"), Some("1"));
    assert_eq!(header(&response, "content-encoding"), Some("gzip"));
    assert_eq!(header(&response, "content-length"), None);
    assert_eq!(header(&response, "content-type"), None);
}

#[test]
fn gzip_is_applied_when_accepted() {
    let body = b"abcabcabcabcabcabcabcabcabcabcabcabcabcabcabcabcabcabc".to_vec();
    let response = HttpResponseBuilder::default()
        .encode(vec![HttpEncodingScheme::Identity, HttpEncodingScheme::Gzip])
        .body(Bytes::from(body.clone()))
        .build();
    let stream = response.body.clone().unwrap();
    assert_eq!(header(&response, "content-encoding"), Some("gzip"));
    assert_eq!(header(&response, "content-type"), Some("text/plain"));
    assert_eq!(
        header(&response, "content-length"),
        Some(stream.len().to_string().as_str())
    );
    assert_eq!(&stream[..2], &[0x1f, 0x8b]);
    assert_ne!(stream.as_ref(), body.as_slice());
    assert_eq!(gunzip(&stream, body.len()), body);
}

#[test]
fn gzip_is_not_applied_when_not_accepted() {
    let response = HttpResponseBuilder::default()
        .encode(vec![HttpEncodingScheme::Identity])
        .body(Bytes::from("abc"))
        .build();
    assert_eq!(header(&response, "content-encoding"), None);
    assert_eq!(response.body.unwrap().as_ref(), b"abc");
    let response = HttpResponseBuilder::default().encode(vec![]).body(Bytes::from("abc")).build();
    assert_eq!(header(&response, "content-encoding"), None);
    assert_eq!(header(&response, "content-length"), Some("3"));
}

#[test]
fn gzip_encode_gives_a_stream_that_decompresses_to_the_payload() {
    for payload in [&b""[..], &b"a"[..], &b"hello hello hello hello"[..], &[0u8; 5000][..]] {
        let (length, stream) = gzip_encode(&Bytes::copy_from_slice(payload));
        assert_eq!(length, stream.len());
        assert!(length >= 18);
        assert_eq!(&stream[..2], &[0x1f, 0x8b]);
        assert_eq!(gunzip(&stream, payload.len()), payload);
    }
}

#[test]
fn gzip_encode_is_a_function_of_the_payload() {
    let payload = Bytes::from("some text, some text, some more text");
    assert_eq!(gzip_encode(&payload), gzip_encode(&payload));
}

#[test]
fn wire_image_of_a_bare_response() {
    let response = HttpResponseBuilder::default().status(200, Some("OK")).build();
    assert_eq!(encode_response(&response), b"HTTP/1.1 200 OK\r\n\r\n");
}

#[test]
fn wire_image_without_message_keeps_the_space() {
    let response = HttpResponseBuilder::default().status(204, None).build();
    assert_eq!(encode_response(&response), b"HTTP/1.1 204 \r\n\r\n");
}

#[test]
fn wire_image_lists_headers_in_order_and_then_the_body() {
    let response = HttpResponseBuilder::default()
        .status(201, Some("Created"))
        .header("X-First", "1")
        .body(Bytes::from("hi"))
        .build();
    assert_eq!(
        encode_response(&response),
        b"HTTP/1.1 201 Created\r\nx-first: 1\r\ncontent-length: 2\r\ncontent-type: text/plain\r\n\r\nhi"
            .to_vec()
    );
}

#[test]
fn wire_image_keeps_body_bytes_as_they_are() {
    let mut headers = HttpHeaders::new();
    headers.insert("k", "gr\u{fc}n");
    let response = HttpResponse {
        status_code: 500,
        status_message: Some("Oops".to_string()),
        headers,
        body: Some(Bytes::from(vec![0xff, 0x00, 0x0d, 0x0a])),
    };
    let mut expected = "HTTP/1.1 500 Oops\r\nk: gr\u{fc}n\r\n\r\n".as_bytes().to_vec();
    expected.extend_from_slice(&[0xff, 0x00, 0x0d, 0x0a]);
    assert_eq!(encode_response(&response), expected);
}

#[test]
fn writing_appends_and_flushing_delivers() {
    let mut stream = MemoryStream::new(Vec::new());
    let response = HttpResponseBuilder::default().status(200, Some("OK")).build();
    let n = stream.write_http_res(response).unwrap();
    assert_eq!(n, 19);
    assert_eq!(stream.written, b"HTTP/1.1 200 OK\r\n\r\n");
    assert!(stream.delivered.is_empty());
    stream.flush().unwrap();
    assert_eq!(stream.delivered, b"HTTP/1.1 200 OK\r\n\r\n");
    let response = HttpResponseBuilder::default().status(404, None).build();
    let n = stream.write_http_res(response).unwrap();
    assert_eq!(n, 17);
    assert_eq!(stream.written, b"HTTP/1.1 200 OK\r\n\r\nHTTP/1.1 404 \r\n\r\n");
    assert_eq!(stream.delivered, b"HTTP/1.1 200 OK\r\n\r\n");
}
