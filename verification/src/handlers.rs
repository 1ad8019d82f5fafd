use crate::payload::{bytes_from_string, bytes_from_vec, contents};
use crate::request::{body_bytes, HttpRequest};
use crate::response::{
    default_draft, finished, negotiated, DraftResponse, HttpResponse, HttpResponseBuilder,
};
use crate::router::{HttpError, HttpErrorView, HttpRequestParams};
use crate::shared::{lookup, lowercase, with_entry};
use bytes::Bytes;
use vstd::prelude::*;
use vstd::utf8::encode_utf8;

verus! {

/// The draft of a response with this status and nothing else.
pub open spec fn status_draft(code: usize, message: Seq<char>) -> DraftResponse {
    DraftResponse { status_code: code, status_message: Some(message), ..default_draft() }
}

/// The handler error with this status and message.
pub open spec fn refusal(code: usize, message: Seq<char>) -> HttpErrorView {
    HttpErrorView { status_code: code, status_message: Some(message) }
}

/// The draft of a response that carries a file: its status, and the
/// content type of arbitrary bytes.
pub open spec fn file_draft(code: usize, message: Seq<char>) -> DraftResponse {
    DraftResponse {
        headers: with_entry(
            Seq::empty(),
            lowercase("Content-Type"@),
            "application/octet-stream"@,
        ),
        ..status_draft(code, message)
    }
}

/// Greets: 200 OK, no body.
pub fn home(_req: HttpRequest, _params: HttpRequestParams) -> (r: Result<HttpResponse, HttpError>)
    ensures
        r matches Ok(response) && response@ == finished(status_draft(200, "OK"@)),
{
    Ok(HttpResponseBuilder::default().status(200, Some("OK")).build())
}

/// Echoes the parameter `message` as the body, under the transform that the
/// request's accepted encodings call for; 400 where the parameter is
/// missing.
pub fn echo(req: HttpRequest, params: HttpRequestParams) -> (r: Result<HttpResponse, HttpError>)
    ensures
        match lookup(params@, "message"@) {
            Some(message) => r matches Ok(response) && response@ == finished(
                DraftResponse {
                    body: Some(encode_utf8(message)),
                    ..negotiated(status_draft(200, "OK"@), req.accepted_encodings@)
                },
            ),
            None => r matches Err(e) && e@ == refusal(400, "Missing message"@),
        },
{
    let mut params = params;
    match params.remove("message") {
        Some(message) => {
            let builder = HttpResponseBuilder::default().status(200, Some("OK")).encode(
                req.accepted_encodings,
            ).body(bytes_from_string(message));
            Ok(builder.build())
        },
        None => Err(HttpError::new(400, Some("Missing message"))),
    }
}

/// Reflects the header `user-agent` as the body; 400 where the request has
/// none.
pub fn user_agent(req: HttpRequest, _params: HttpRequestParams) -> (r: Result<
    HttpResponse,
    HttpError,
>)
    ensures
        match lookup(req.headers@, "user-agent"@) {
            Some(agent) => r matches Ok(response) && response@ == finished(
                DraftResponse { body: Some(encode_utf8(agent)), ..status_draft(200, "OK"@) },
            ),
            None => r matches Err(e) && e@ == refusal(400, "Missing user-agent header"@),
        },
{
    let mut headers = req.headers;
    match headers.remove_exact("user-agent") {
        Some(agent) => {
            let builder = HttpResponseBuilder::default().status(200, Some("OK")).body(
                bytes_from_string(agent),
            );
            Ok(builder.build())
        },
        None => Err(HttpError::new(400, Some("Missing user-agent header"))),
    }
}

/// The name of the file that a request for one asks for: the parameter
/// `filename`; 400 where it is missing.
pub fn requested_file(params: HttpRequestParams) -> (r: Result<String, HttpError>)
    ensures
        match lookup(params@, "filename"@) {
            Some(name) => r matches Ok(file) && file@ == name,
            None => r matches Err(e) && e@ == refusal(400, "Missing filename"@),
        },
{
    let mut params = params;
    match params.remove("filename") {
        Some(name) => Ok(name),
        None => Err(HttpError::new(400, Some("Missing filename"))),
    }
}

/// The answer to a request for a file, given what reading it gave: 200 OK
/// with the file as the body, or 404 where it could not be read.
pub fn get_file(read: Option<Vec<u8>>) -> (r: Result<HttpResponse, HttpError>)
    ensures
        match read {
            Some(file) => r matches Ok(response) && response@ == finished(
                DraftResponse { body: Some(file@), ..file_draft(200, "OK"@) },
            ),
            None => r matches Err(e) && e@ == refusal(404, "Not Found"@),
        },
{
    match read {
        Some(file) => {
            let builder = HttpResponseBuilder::default().status(200, Some("OK")).header(
                "Content-Type",
                "application/octet-stream",
            ).body(bytes_from_vec(file));
            Ok(builder.build())
        },
        None => Err(HttpError::new(404, Some("Not Found"))),
    }
}

/// The bytes that a request to create a file wants stored: its body; 422
/// where it has none.
pub fn file_to_create(req: HttpRequest) -> (r: Result<Bytes, HttpError>)
    ensures
        match body_bytes(req.body) {
            Some(body) => r matches Ok(stored) && contents(stored) == body,
            None => r matches Err(e) && e@ == refusal(422, "No body"@),
        },
{
    match req.body {
        Some(body) => Ok(body),
        None => Err(HttpError::new(422, Some("No body"))),
    }
}

/// The answer to a request to create a file, given whether it was written:
/// 201 Created, or 500 where writing failed.
pub fn create_file(written: bool) -> (r: Result<HttpResponse, HttpError>)
    ensures
        if written {
            r matches Ok(response) && response@ == finished(file_draft(201, "Created"@))
        } else {
            r matches Err(e) && e@ == refusal(500, "Internal Server Error"@)
        },
{
    if written {
        let builder = HttpResponseBuilder::default().status(201, Some("Created")).header(
            "Content-Type",
            "application/octet-stream",
        );
        Ok(builder.build())
    } else {
        Err(HttpError::new(500, Some("Internal Server Error")))
    }
}

} // verus!
