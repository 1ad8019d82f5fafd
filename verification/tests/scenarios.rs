use libdeflater::Decompressor;
use mini_http::handlers::{
    create_file, echo, file_to_create, get_file, home, requested_file, user_agent,
};
use mini_http::request::{decode_request, HttpMethod, HttpRequest};
use mini_http::response::HttpResponse;
use mini_http::router::{HttpError, HttpRegexEndpoint, HttpRequestParams, RegexRouter};
use mini_http::server::{dispatch, parse_directory_flag, DispatchError, MemoryStream};
use mini_http::shared::TextMap;

type Handler = fn(HttpRequest, HttpRequestParams) -> Result<HttpResponse, HttpError>;

fn unused(_req: HttpRequest, _params: HttpRequestParams) -> Result<HttpResponse, HttpError> {
    Err(HttpError::new(501, Some("Not Implemented")))
}

fn table() -> RegexRouter<Handler> {
    let route = |method, template, handler: Handler| {
        HttpRegexEndpoint::try_new(method, template, handler).unwrap()
    };
    RegexRouter {
        endpoints: vec![
            route(HttpMethod::GET, "/", home),
            route(HttpMethod::GET, "/echo/:message", echo),
            route(HttpMethod::GET, "/user-agent", user_agent),
            route(HttpMethod::GET, "/files/:filename", unused),
        ],
    }
}

fn serve(input: &[u8]) -> (Result<usize, DispatchError>, MemoryStream) {
    let mut stream = MemoryStream::new(input.to_vec());
    let outcome = dispatch(&table(), &mut stream);
    (outcome, stream)
}

fn split(wire: &[u8]) -> (String, Vec<u8>) {
    let at = wire.windows(4).position(|w| w == b"\r\n\r\n").unwrap();
    (String::from_utf8(wire[..at + 2].to_vec()).unwrap(), wire[at + 4..].to_vec())
}

#[test]
fn echo_answers_with_the_parameter() {
    let (outcome, stream) = serve(b"GET /echo/abc HTTP/1.1\r\nHost: x\r\n\r\n");
    let n = outcome.unwrap();
    assert_eq!(
        stream.delivered,
        b"HTTP/1.1 200 OK\r\ncontent-length: 3\r\ncontent-type: text/plain\r\n\r\nabc".to_vec()
    );
    assert_eq!(stream.written, stream.delivered);
    assert_eq!(n, stream.delivered.len());
}

#[test]
fn echo_compresses_when_gzip_is_accepted() {
    let (outcome, stream) =
        serve(b"GET /echo/abc HTTP/1.1\r\nHost: x\r\nAccept-Encoding: gzip\r\n\r\n");
    outcome.unwrap();
    let (head, body) = split(&stream.delivered);
    assert_eq!(
        head,
        format!(
            "HTTP/1.1 200 OK\r\ncontent-encoding: gzip\r\ncontent-length: {}\r\ncontent-type: text/plain\r\n",
            body.len()
        )
    );
    let mut out = vec![0u8; 3];
    let n = Decompressor::new().gzip_decompress(&body, &mut out).unwrap();
    assert_eq!(&out[..n], b"abc");
}

#[test]
fn unknown_target_answers_404() {
    let (outcome, stream) = serve(b"GET /nope HTTP/1.1\r\n\r\n");
    outcome.unwrap();
    assert_eq!(stream.delivered, b"HTTP/1.1 404 Not Found\r\n\r\n".to_vec());
}

#[test]
fn garbage_request_line_gets_no_answer() {
    let (outcome, stream) = serve(b"GARBAGE\r\n");
    match outcome {
        Err(DispatchError::Request(e)) => {
            assert_eq!(e.message(), "Invalid HTTP verb: GARBAGE\r\n");
        }
        other => panic!("{:?}", other),
    }
    assert!(stream.written.is_empty());
    assert!(stream.delivered.is_empty());
}

#[test]
fn home_greets() {
    let (outcome, stream) = serve(b"GET / HTTP/1.1\r\n\r\n");
    outcome.unwrap();
    assert_eq!(stream.delivered, b"HTTP/1.1 200 OK\r\n\r\n".to_vec());
}

#[test]
fn user_agent_is_reflected() {
    let (outcome, stream) = serve(b"GET /user-agent HTTP/1.1\r\nUser-Agent: curl/8.0\r\n\r\n");
    outcome.unwrap();
    assert_eq!(
        stream.delivered,
        b"HTTP/1.1 200 OK\r\ncontent-length: 8\r\ncontent-type: text/plain\r\n\r\ncurl/8.0".to_vec()
    );
    let (outcome, stream) = serve(b"GET /user-agent HTTP/1.1\r\n\r\n");
    outcome.unwrap();
    assert_eq!(stream.delivered, b"HTTP/1.1 400 Missing user-agent header\r\n\r\n".to_vec());
}

#[test]
fn handler_error_is_written_as_a_response() {
    let (outcome, stream) = serve(b"GET /files/x HTTP/1.1\r\n\r\n");
    outcome.unwrap();
    assert_eq!(stream.delivered, b"HTTP/1.1 501 Not Implemented\r\n\r\n".to_vec());
}

#[test]
fn echo_without_parameter_is_a_400() {
    let (request, _) = decode_request(b"GET /echo/abc HTTP/1.1\r\n\r\n").unwrap();
    let e = echo(request, TextMap::new()).unwrap_err();
    assert_eq!(e.status_code(), 400);
    assert_eq!(e.status_message().as_deref(), Some("Missing message"));
}

#[test]
fn echo_keeps_text_beyond_ascii() {
    let (request, _) = decode_request(b"GET /echo/x HTTP/1.1\r\n\r\n").unwrap();
    let mut params = TextMap::new();
    params.insert("message".to_string(), "gr\u{fc}n".to_string());
    let response = echo(request, params).unwrap();
    assert_eq!(response.body.unwrap().as_ref(), "gr\u{fc}n".as_bytes());
    assert_eq!(response.headers.get("content-length").map(|v| v.as_str()), Some("5"));
}

#[test]
fn a_created_file_can_be_fetched() {
    let mut store: Vec<(String, Vec<u8>)> = Vec::new();
    let input = b"POST /files/report.txt HTTP/1.1\r\nContent-Length: 5\r\n\r\nhello";
    let (request, _) = decode_request(input).unwrap();
    let mut params = TextMap::new();
    params.insert("filename".to_string(), "report.txt".to_string());
    let name = requested_file(params).unwrap();
    let bytes = file_to_create(request).unwrap();
    store.push((name, bytes.to_vec()));
    let response = create_file(true).unwrap();
    assert_eq!(response.status_code, 201);
    assert_eq!(response.status_message.as_deref(), Some("Created"));
    assert!(response.body.is_none());
    assert_eq!(
        response.headers.get("content-type").map(|v| v.as_str()),
        Some("application/octet-stream")
    );

    let mut params = TextMap::new();
    params.insert("filename".to_string(), "report.txt".to_string());
    let name = requested_file(params).unwrap();
    let found = store.iter().find(|(n, _)| *n == name).map(|(_, b)| b.clone());
    let response = get_file(found).unwrap();
    assert_eq!(response.status_code, 200);
    assert_eq!(response.status_message.as_deref(), Some("OK"));
    assert_eq!(response.body.unwrap().as_ref(), b"hello");
    assert_eq!(
        response.headers.get("content-type").map(|v| v.as_str()),
        Some("application/octet-stream")
    );
    assert_eq!(response.headers.get("content-length").map(|v| v.as_str()), Some("5"));
}

#[test]
fn file_handlers_refuse_what_is_missing() {
    let e = requested_file(TextMap::new()).unwrap_err();
    assert_eq!(e.status_code(), 400);
    assert_eq!(e.status_message().as_deref(), Some("Missing filename"));
    let e = get_file(None).unwrap_err();
    assert_eq!(e.status_code(), 404);
    assert_eq!(e.status_message().as_deref(), Some("Not Found"));
    let (request, _) = decode_request(b"POST /files/a HTTP/1.1\r\n\r\n").unwrap();
    let e = file_to_create(request).unwrap_err();
    assert_eq!(e.status_code(), 422);
    assert_eq!(e.status_message().as_deref(), Some("No body"));
    let e = create_file(false).unwrap_err();
    assert_eq!(e.status_code(), 500);
    assert_eq!(e.status_message().as_deref(), Some("Internal Server Error"));
}

#[test]
fn directory_flag_is_the_argument_after_the_first_flag() {
    let args = |list: &[&str]| list.iter().map(|s| s.to_string()).collect::<Vec<String>>();
    assert_eq!(parse_directory_flag(&args(&["server", "--directory", "/tmp/x"])), Some("/tmp/x".to_string()));
    assert_eq!(parse_directory_flag(&args(&["server"])), None);
    assert_eq!(parse_directory_flag(&args(&[])), None);
    assert_eq!(parse_directory_flag(&args(&["server", "--directory"])), None);
    assert_eq!(
        parse_directory_flag(&args(&["--directory", "--directory", "b"])),
        Some("--directory".to_string())
    );
    assert_eq!(
        parse_directory_flag(&args(&["a", "--directory", "b", "--directory", "c"])),
        Some("b".to_string())
    );
    assert_eq!(parse_directory_flag(&args(&["--Directory", "b"])), None);
}
