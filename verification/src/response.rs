use crate::gzip::{fastest_level, gzip_encode, gzip_inflated, gzip_stream};
use crate::payload::{bytes_as_slice, contents};
use crate::request::body_bytes;
use crate::shared::{
    lemma_lookup_with_entry, lookup, lowercase, text_of_option, with_entry, HttpEncodingScheme,
    HttpHeaders,
};
use crate::text::{decimal, decimal_string, push_decimal};
use bytes::Bytes;
use vstd::prelude::*;
use vstd::string::{StrSliceExecFns, StringExecFns};
use vstd::utf8::encode_utf8;

verus! {

/// A response, as plain values.
pub struct HttpResponseView {
    pub status_code: usize,
    pub status_message: Option<Seq<char>>,
    pub headers: Seq<(Seq<char>, Seq<char>)>,
    pub body: Option<Seq<u8>>,
}

/// A finished response.
#[derive(Debug)]
pub struct HttpResponse {
    pub status_code: usize,
    pub status_message: Option<String>,
    pub headers: HttpHeaders,
    pub body: Option<Bytes>,
}

impl View for HttpResponse {
    type V = HttpResponseView;

    open spec fn view(&self) -> HttpResponseView {
        HttpResponseView {
            status_code: self.status_code,
            status_message: text_of_option(self.status_message),
            headers: self.headers@,
            body: body_bytes(self.body),
        }
    }
}

/// A response under construction, as plain values.
pub struct DraftResponse {
    pub status_code: usize,
    pub status_message: Option<Seq<char>>,
    pub headers: Seq<(Seq<char>, Seq<char>)>,
    pub body: Option<Seq<u8>>,
    pub encoding: HttpEncodingScheme,
}

/// The draft that every response starts from: status 200, nothing else.
pub open spec fn default_draft() -> DraftResponse {
    DraftResponse {
        status_code: 200,
        status_message: None,
        headers: Seq::empty(),
        body: None,
        encoding: HttpEncodingScheme::Identity,
    }
}

/// The draft after negotiation: where the client accepts gzip, the body is
/// to be compressed and `content-encoding: gzip` is set.
pub open spec fn negotiated(draft: DraftResponse, accepted: Seq<HttpEncodingScheme>) -> DraftResponse {
    if accepted.contains(HttpEncodingScheme::Gzip) {
        DraftResponse {
            encoding: HttpEncodingScheme::Gzip,
            headers: with_entry(draft.headers, "content-encoding"@, "gzip"@),
            ..draft
        }
    } else {
        draft
    }
}

/// The headers of a response with a body of `length` bytes, before any
/// transform: `content-length` is set, and `content-type` is `text/plain`
/// unless it was set already.
pub open spec fn described(headers: Seq<(Seq<char>, Seq<char>)>, length: nat) -> Seq<
    (Seq<char>, Seq<char>),
> {
    let sized = with_entry(headers, "content-length"@, decimal(length));
    if lookup(sized, "content-type"@).is_none() {
        with_entry(sized, "content-type"@, "text/plain"@)
    } else {
        sized
    }
}

/// The response that a draft stands for. Without a body the draft is taken
/// as it is. With one, the headers describe it, and where gzip was
/// negotiated the body is its gzip stream and `content-length` is the
/// length of that stream.
pub open spec fn finished(draft: DraftResponse) -> HttpResponseView {
    match draft.body {
        None => HttpResponseView {
            status_code: draft.status_code,
            status_message: draft.status_message,
            headers: draft.headers,
            body: None,
        },
        Some(body) => {
            let headers = described(draft.headers, body.len());
            match draft.encoding {
                HttpEncodingScheme::Identity => HttpResponseView {
                    status_code: draft.status_code,
                    status_message: draft.status_message,
                    headers,
                    body: Some(body),
                },
                HttpEncodingScheme::Gzip => {
                    let stream = gzip_stream(fastest_level(), body);
                    HttpResponseView {
                        status_code: draft.status_code,
                        status_message: draft.status_message,
                        headers: with_entry(headers, "content-length"@, decimal(stream.len())),
                        body: Some(stream),
                    }
                },
            }
        },
    }
}

/// A response under construction: status, headers and body accumulate, and
/// `build` turns them into the response.
#[derive(Debug)]
pub struct HttpResponseBuilder {
    status_code: usize,
    status_message: Option<String>,
    headers: HttpHeaders,
    body: Option<Bytes>,
    encoding: HttpEncodingScheme,
}

impl View for HttpResponseBuilder {
    type V = DraftResponse;

    closed spec fn view(&self) -> DraftResponse {
        DraftResponse {
            status_code: self.status_code,
            status_message: text_of_option(self.status_message),
            headers: self.headers@,
            body: body_bytes(self.body),
            encoding: self.encoding,
        }
    }
}

/// Whether `schemes` holds gzip.
fn accepts_gzip(schemes: &Vec<HttpEncodingScheme>) -> (b: bool)
    ensures
        b == schemes@.contains(HttpEncodingScheme::Gzip),
{
    let mut i: usize = 0;
    while i < schemes.len()
        invariant
            i <= schemes.len(),
            forall|k: int| 0 <= k < i ==> schemes@[k] != HttpEncodingScheme::Gzip,
        decreases schemes.len() - i,
    {
        if schemes[i] == HttpEncodingScheme::Gzip {
            return true;
        }
        i += 1;
    }
    false
}

impl HttpResponseBuilder {
    /// Sets the status code and message.
    pub fn status(self, code: usize, message: Option<&str>) -> (r: Self)
        ensures
            r@ == (DraftResponse {
                status_code: code,
                status_message: match message {
                    Some(m) => Some(m@),
                    None => None,
                },
                ..self@
            }),
    {
        let message = match message {
            Some(m) => Some(String::from_str(m)),
            None => None,
        };
        HttpResponseBuilder {
            status_code: code,
            status_message: message,
            headers: self.headers,
            body: self.body,
            encoding: self.encoding,
        }
    }

    /// Stores `header_value` under the lower-case form of `header_name`; a
    /// value already stored under it is replaced.
    pub fn header(self, header_name: &str, header_value: &str) -> (r: Self)
        ensures
            r@ == (DraftResponse {
                headers: with_entry(self@.headers, lowercase(header_name@), header_value@),
                ..self@
            }),
    {
        let mut headers = self.headers;
        headers.insert(header_name, header_value);
        HttpResponseBuilder {
            status_code: self.status_code,
            status_message: self.status_message,
            headers,
            body: self.body,
            encoding: self.encoding,
        }
    }

    /// Negotiates the body transform from the encodings that the client
    /// accepts.
    pub fn encode(self, accepted_schemes: Vec<HttpEncodingScheme>) -> (r: Self)
        ensures
            r@ == negotiated(self@, accepted_schemes@),
    {
        if accepts_gzip(&accepted_schemes) {
            let mut headers = self.headers;
            headers.insert_exact(String::from_str("content-encoding"), String::from_str("gzip"));
            HttpResponseBuilder {
                status_code: self.status_code,
                status_message: self.status_message,
                headers,
                body: self.body,
                encoding: HttpEncodingScheme::Gzip,
            }
        } else {
            self
        }
    }

    /// Sets the body.
    pub fn body(self, body: Bytes) -> (r: Self)
        ensures
            r@ == (DraftResponse { body: Some(contents(body)), ..self@ }),
    {
        HttpResponseBuilder {
            status_code: self.status_code,
            status_message: self.status_message,
            headers: self.headers,
            body: Some(body),
            encoding: self.encoding,
        }
    }

    /// The response that the draft stands for, as `finished` describes it.
    /// Where gzip was negotiated, the body that is sent decompresses to the
    /// body of the draft.
    pub fn build(self) -> (response: HttpResponse)
        ensures
            response@ == finished(self@),
            self@.encoding == HttpEncodingScheme::Gzip ==> (self@.body matches Some(body)
                ==> response@.body matches Some(stream) && gzip_inflated(stream) == Some(body)),
    {
        let body = match self.body {
            Some(body) => body,
            None => {
                return HttpResponse {
                    status_code: self.status_code,
                    status_message: self.status_message,
                    headers: self.headers,
                    body: None,
                };
            },
        };
        let mut headers = self.headers;
        headers.insert_exact(String::from_str("content-length"), decimal_string(body.len()));
        if headers.get_exact("content-type").is_none() {
            headers.insert_exact(String::from_str("content-type"), String::from_str("text/plain"));
        }
        let body = match self.encoding {
            HttpEncodingScheme::Identity => body,
            HttpEncodingScheme::Gzip => {
                let (length, stream) = gzip_encode(&body);
                headers.insert_exact(String::from_str("content-length"), decimal_string(length));
                stream
            },
        };
        HttpResponse {
            status_code: self.status_code,
            status_message: self.status_message,
            headers,
            body: Some(body),
        }
    }
}

impl Default for HttpResponseBuilder {
    fn default() -> (r: Self)
        ensures
            r@ == default_draft(),
    {
        HttpResponseBuilder {
            status_code: 200,
            status_message: None,
            headers: HttpHeaders::new(),
            body: None,
            encoding: HttpEncodingScheme::Identity,
        }
    }
}

/// The status line of a response, CRLF included.
pub open spec fn status_line(code: usize, message: Option<Seq<char>>) -> Seq<char> {
    "HTTP/1.1 "@ + decimal(code as nat) + " "@ + (match message {
        Some(m) => m,
        None => Seq::<char>::empty(),
    }) + "\r\n"@
}

/// The header lines of a response, in the order of the entries, each as
/// `name: value` and CRLF.
pub open spec fn header_lines(headers: Seq<(Seq<char>, Seq<char>)>) -> Seq<char>
    decreases headers.len(),
{
    if headers.len() == 0 {
        Seq::<char>::empty()
    } else {
        header_lines(headers.drop_last()) + headers.last().0 + ": "@ + headers.last().1
            + "\r\n"@
    }
}

/// The text that stands before the body on the wire: the status line, the
/// header lines and a blank line.
pub open spec fn head_text(response: HttpResponseView) -> Seq<char> {
    status_line(response.status_code, response.status_message) + header_lines(
        response.headers,
    ) + "\r\n"@
}

/// The bytes that a response is on the wire: its head as UTF-8, then the
/// bytes of its body, if it has one.
pub open spec fn wire_image(response: HttpResponseView) -> Seq<u8> {
    encode_utf8(head_text(response)) + (match response.body {
        Some(body) => body,
        None => Seq::<u8>::empty(),
    })
}

/// The bytes that `response` is on the wire.
pub fn encode_response(response: &HttpResponse) -> (bytes: Vec<u8>)
    ensures
        bytes@ == wire_image(response@),
{
    let mut head = String::from_str("HTTP/1.1 ");
    push_decimal(&mut head, response.status_code);
    head.append(" ");
    match &response.status_message {
        Some(message) => {
            head.append(message.as_str());
        },
        None => {},
    }
    head.append("\r\n");
    assert(head@ =~= status_line(response@.status_code, response@.status_message));
    let count = response.headers.len();
    let mut i: usize = 0;
    while i < count
        invariant
            i <= count,
            count == response.headers@.len(),
            head@ == status_line(response@.status_code, response@.status_message) + header_lines(
                response.headers@.subrange(0, i as int),
            ),
        decreases count - i,
    {
        match response.headers.entry(i) {
            Some(entry) => {
                head.append(entry.name.as_str());
                head.append(": ");
                head.append(entry.value.as_str());
                head.append("\r\n");
            },
            None => {},
        }
        proof {
            let longer = response.headers@.subrange(0, i + 1);
            assert(longer.drop_last() =~= response.headers@.subrange(0, i as int));
            assert(longer.last() == response.headers@[i as int]);
            assert(head@ =~= status_line(response@.status_code, response@.status_message)
                + header_lines(longer));
        }
        i += 1;
    }
    assert(response.headers@.subrange(0, count as int) =~= response.headers@);
    head.append("\r\n");
    let mut bytes = head.as_str().as_bytes_vec();
    match &response.body {
        Some(body) => {
            bytes.extend_from_slice(bytes_as_slice(body));
        },
        None => {
            assert(bytes@ + Seq::<u8>::empty() =~= bytes@);
        },
    }
    bytes
}

/// `std::io::Error`, the failure of a transport.
#[verifier::external_type_specification]
#[verifier::external_body]
pub struct ExIoError(std::io::Error);

/// A transport that responses can be written to.
pub trait HttpResponseWriter {
    /// The bytes written to the transport so far. A transport that does
    /// not say what they are leaves them unspecified.
    open spec fn written(&self) -> Seq<u8> {
        arbitrary()
    }

    /// The bytes that have left the transport's buffer. A transport that
    /// does not say what they are leaves them unspecified.
    open spec fn delivered(&self) -> Seq<u8> {
        arbitrary()
    }

    /// Whether the transport never fails. A transport that does not say
    /// leaves it unspecified.
    open spec fn reliable(&self) -> bool {
        arbitrary()
    }

    /// Writes `res` to the transport, as `wire_image` lays it out, and
    /// returns the number of bytes written. Nothing is flushed. A reliable
    /// transport succeeds and stays reliable.
    fn write_http_res(&mut self, res: HttpResponse) -> (r: Result<usize, std::io::Error>)
        ensures
            final(self).delivered() == old(self).delivered(),
            r matches Ok(n) ==> final(self).written() == old(self).written() + wire_image(res@)
                && n == wire_image(res@).len(),
            old(self).reliable() ==> r is Ok && final(self).reliable(),
    ;

    /// Flushes the transport: what was written is delivered. A reliable
    /// transport succeeds and stays reliable.
    fn flush(&mut self) -> (r: Result<(), std::io::Error>)
        ensures
            final(self).written() == old(self).written(),
            r is Ok ==> final(self).delivered() == final(self).written(),
            old(self).reliable() ==> r is Ok && final(self).reliable(),
    ;
}

/// A response built from a body and no explicit `content-type` has
/// `content-type: text/plain`. Where the client does not accept gzip, the
/// body is sent as it is and `content-length` is its length. Where it does,
/// the body is its gzip stream, `content-encoding: gzip` is present and
/// `content-length` is the length of the stream.
pub proof fn lemma_built_response_describes_body(
    draft: DraftResponse,
    accepted: Seq<HttpEncodingScheme>,
    body: Seq<u8>,
)
    requires
        draft.encoding == HttpEncodingScheme::Identity,
        lookup(draft.headers, "content-type"@).is_none(),
    ensures
        ({
            let response = finished(
                DraftResponse { body: Some(body), ..negotiated(draft, accepted) },
            );
            let stream = gzip_stream(fastest_level(), body);
            &&& lookup(response.headers, "content-type"@) == Some("text/plain"@)
            &&& !accepted.contains(HttpEncodingScheme::Gzip) ==> {
                &&& response.body == Some(body)
                &&& lookup(response.headers, "content-length"@) == Some(decimal(body.len()))
            }
            &&& accepted.contains(HttpEncodingScheme::Gzip) ==> {
                &&& response.body == Some(stream)
                &&& lookup(response.headers, "content-encoding"@) == Some("gzip"@)
                &&& lookup(response.headers, "content-length"@) == Some(decimal(stream.len()))
            }
        }),
{
    reveal_strlit("content-type");
    reveal_strlit("content-length");
    reveal_strlit("content-encoding");
    let length = "content-length"@;
    let kind = "content-type"@;
    let coding = "content-encoding"@;
    assert(length.len() != kind.len() && kind.len() != coding.len() && length.len()
        != coding.len());
    let start = negotiated(draft, accepted).headers;
    lemma_lookup_with_entry(draft.headers, coding, "gzip"@, kind);
    lemma_lookup_with_entry(draft.headers, coding, "gzip"@, coding);
    let sized = with_entry(start, length, decimal(body.len()));
    lemma_lookup_with_entry(start, length, decimal(body.len()), kind);
    lemma_lookup_with_entry(start, length, decimal(body.len()), length);
    lemma_lookup_with_entry(start, length, decimal(body.len()), coding);
    let typed = described(start, body.len());
    lemma_lookup_with_entry(sized, kind, "text/plain"@, kind);
    lemma_lookup_with_entry(sized, kind, "text/plain"@, length);
    lemma_lookup_with_entry(sized, kind, "text/plain"@, coding);
    let stream = gzip_stream(fastest_level(), body);
    lemma_lookup_with_entry(typed, length, decimal(stream.len()), kind);
    lemma_lookup_with_entry(typed, length, decimal(stream.len()), length);
    lemma_lookup_with_entry(typed, length, decimal(stream.len()), coding);
}

/// In every response that is built with a body, `content-length` is the
/// length of the body that is sent, which is the compressed one where gzip
/// was negotiated.
pub proof fn lemma_content_length_is_final_length(draft: DraftResponse)
    requires
        draft.body.is_some(),
    ensures
        finished(draft).body matches Some(body) && lookup(
            finished(draft).headers,
            "content-length"@,
        ) == Some(decimal(body.len())),
{
    reveal_strlit("content-type");
    reveal_strlit("content-length");
    let length = "content-length"@;
    let kind = "content-type"@;
    assert(length.len() != kind.len());
    let body = draft.body->Some_0;
    let sized = with_entry(draft.headers, length, decimal(body.len()));
    lemma_lookup_with_entry(draft.headers, length, decimal(body.len()), length);
    lemma_lookup_with_entry(sized, kind, "text/plain"@, length);
    let stream = gzip_stream(fastest_level(), body);
    lemma_lookup_with_entry(
        described(draft.headers, body.len()),
        length,
        decimal(stream.len()),
        length,
    );
}

} // verus!
