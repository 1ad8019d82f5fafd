use crate::payload::{bytes_from_vec, contents};
use crate::shared::{lowercase, to_lowercase, with_entry, HttpEncodingScheme, HttpHeaders};
use crate::text::{
    after_first, before_first, chars_of, find_byte_from, find_from, find_pair_from, index_from,
    lemma_index_from, lemma_index_of_tail, lemma_pair_index_from, pair_index_from,
    parse_number, parse_usize, range_is, strip_suffix, text_of,
};
use bytes::Bytes;
use vstd::prelude::*;
use vstd::slice::{slice_subrange, slice_to_vec};
use vstd::string::{StrSliceExecFns, StringExecFns};
use vstd::utf8::{decode_utf8, valid_utf8};

verus! {

/// The request methods that the server recognises.
#[derive(Debug, Clone, Copy, PartialEq, Eq, Structural)]
pub enum HttpMethod {
    GET,
    POST,
    PUT,
    DELETE,
    HEAD,
    OPTIONS,
}

/// What was wrong with a request that could not be decoded.
#[derive(Debug, Clone, Copy, PartialEq, Eq, Structural)]
pub enum HttpRequestParsingErrorKind {
    /// The request line does not begin with a recognised method.
    InvalidVerb,
    /// The request target is missing or does not begin with `/`.
    InvalidTarget,
    /// The version is not `HTTP/1.1` followed by CRLF.
    InvalidVersion,
    /// A header line lacks its CRLF or its `": "` separator.
    MalformedHeader,
    /// The value of `content-length` is no number.
    InvalidContentLength,
    /// The input is not text where text is due, or ends before the body does.
    IoError,
}

/// What a decoding failure says: its kind and its message.
pub struct ParsingFailure {
    pub kind: HttpRequestParsingErrorKind,
    pub message: Seq<char>,
}

/// The reason why a request could not be decoded.
#[derive(Debug)]
pub struct HttpRequestParsingError {
    kind: HttpRequestParsingErrorKind,
    message: String,
}

impl View for HttpRequestParsingError {
    type V = ParsingFailure;

    closed spec fn view(&self) -> ParsingFailure {
        ParsingFailure { kind: self.kind, message: self.message@ }
    }
}

impl HttpRequestParsingError {
    fn new(kind: HttpRequestParsingErrorKind, message: String) -> (e: Self)
        ensures
            e@ == (ParsingFailure { kind, message: message@ }),
    {
        HttpRequestParsingError { kind, message }
    }

    /// The failure of a transport while a request was read, with the
    /// transport's own message.
    pub fn io(message: &str) -> (e: Self)
        ensures
            e@ == (ParsingFailure {
                kind: HttpRequestParsingErrorKind::IoError,
                message: message@,
            }),
    {
        HttpRequestParsingError::new(
            HttpRequestParsingErrorKind::IoError,
            String::from_str(message),
        )
    }

    /// The human-readable message.
    pub fn message(&self) -> (m: String)
        ensures
            m@ == self@.message,
    {
        self.message.clone()
    }

    /// The kind of failure.
    pub fn kind(&self) -> (k: HttpRequestParsingErrorKind)
        ensures
            k == self@.kind,
    {
        self.kind
    }
}

/// A decoded request, as plain values.
pub struct HttpRequestView {
    pub method: HttpMethod,
    pub target: Seq<char>,
    pub headers: Seq<(Seq<char>, Seq<char>)>,
    pub body: Option<Seq<u8>>,
    pub accepted_encodings: Seq<HttpEncodingScheme>,
}

/// One decoded request.
#[derive(Debug)]
pub struct HttpRequest {
    pub method: HttpMethod,
    pub target: String,
    pub headers: HttpHeaders,
    pub body: Option<Bytes>,
    pub accepted_encodings: Vec<HttpEncodingScheme>,
}

/// The bytes of an optional body.
pub open spec fn body_bytes(body: Option<Bytes>) -> Option<Seq<u8>> {
    match body {
        Some(b) => Some(contents(b)),
        None => None,
    }
}

impl View for HttpRequest {
    type V = HttpRequestView;

    open spec fn view(&self) -> HttpRequestView {
        HttpRequestView {
            method: self.method,
            target: self.target@,
            headers: self.headers@,
            body: body_bytes(self.body),
            accepted_encodings: self.accepted_encodings@,
        }
    }
}

/// A request under construction, as plain values. `content_length` is the
/// body length that the headers read so far declare.
pub struct DraftRequest {
    pub method: HttpMethod,
    pub target: Seq<char>,
    pub headers: Seq<(Seq<char>, Seq<char>)>,
    pub body: Option<Seq<u8>>,
    pub accepted_encodings: Seq<HttpEncodingScheme>,
    pub content_length: usize,
}

/// The line terminator.
pub open spec fn crlf() -> Seq<char> {
    seq!['\r', '\n']
}

/// The method that a token of the request line names.
pub open spec fn method_of(token: Seq<char>) -> Option<HttpMethod> {
    if token == "GET"@ {
        Some(HttpMethod::GET)
    } else if token == "POST"@ {
        Some(HttpMethod::POST)
    } else if token == "PUT"@ {
        Some(HttpMethod::PUT)
    } else if token == "DELETE"@ {
        Some(HttpMethod::DELETE)
    } else if token == "HEAD"@ {
        Some(HttpMethod::HEAD)
    } else if token == "OPTIONS"@ {
        Some(HttpMethod::OPTIONS)
    } else {
        None
    }
}

/// The third space-separated token of a request line whose text after the
/// first space is `rest`, if there is one.
pub open spec fn version_token(rest: Seq<char>) -> Option<Seq<char>> {
    match after_first(rest, ' ') {
        Some(tail) => Some(before_first(tail, ' ')),
        None => None,
    }
}

/// What a request line holds: the tokens are cut at single spaces; the first
/// names the method, the second is the target and begins with `/`, the third
/// is `HTTP/1.1` with its CRLF. Tokens after the third are not looked at.
pub open spec fn parse_request_line(line: Seq<char>) -> Result<
    (HttpMethod, Seq<char>),
    ParsingFailure,
> {
    let verb = before_first(line, ' ');
    match method_of(verb) {
        None => Err(
            ParsingFailure {
                kind: HttpRequestParsingErrorKind::InvalidVerb,
                message: "Invalid HTTP verb: "@ + verb,
            },
        ),
        Some(method) => match after_first(line, ' ') {
            None => Err(
                ParsingFailure {
                    kind: HttpRequestParsingErrorKind::InvalidTarget,
                    message: "Missing request target"@,
                },
            ),
            Some(rest) => {
                let target = before_first(rest, ' ');
                if !(target.len() > 0 && target[0] == '/') {
                    Err(
                        ParsingFailure {
                            kind: HttpRequestParsingErrorKind::InvalidTarget,
                            message: "Request target must start with /"@,
                        },
                    )
                } else {
                    let version = version_token(rest);
                    if version == Some("HTTP/1.1\r\n"@) {
                        Ok((method, target))
                    } else {
                        Err(
                            ParsingFailure {
                                kind: HttpRequestParsingErrorKind::InvalidVersion,
                                message: "Invalid HTTP version or missing CRLF sequence: "@ + (
                                match version {
                                    Some(v) => v,
                                    None => Seq::<char>::empty(),
                                }),
                            },
                        )
                    }
                }
            },
        },
    }
}

/// The draft that a request line with this method and target starts.
pub open spec fn fresh_draft(method: HttpMethod, target: Seq<char>) -> DraftRequest {
    DraftRequest {
        method,
        target,
        headers: Seq::empty(),
        body: None,
        accepted_encodings: Seq::empty(),
        content_length: 0,
    }
}

/// The scheme that an `accept-encoding` token names, if it is recognised.
pub open spec fn scheme_of(token: Seq<char>) -> Option<HttpEncodingScheme> {
    if token == "gzip"@ {
        Some(HttpEncodingScheme::Gzip)
    } else {
        None
    }
}

/// `list` with the scheme that `token` names at its end; an unrecognised
/// token leaves `list` as it is.
pub open spec fn with_encoding(list: Seq<HttpEncodingScheme>, token: Seq<char>) -> Seq<
    HttpEncodingScheme,
> {
    match scheme_of(token) {
        Some(scheme) => list.push(scheme),
        None => list,
    }
}

/// `list` after each space-separated token of `value` was added to it in
/// turn.
pub open spec fn with_encodings(list: Seq<HttpEncodingScheme>, value: Seq<char>) -> Seq<
    HttpEncodingScheme,
>
    decreases value.len(),
{
    let next = with_encoding(list, before_first(value, ' '));
    match after_first(value, ' ') {
        Some(rest) => {
            proof {
                lemma_index_from(value, ' ', 0);
            }
            with_encodings(next, rest)
        },
        None => next,
    }
}

/// What a header line holds: `None` for the blank line that ends the
/// headers, else the name before the first `": "` and the value after it.
pub open spec fn parse_header_line(line: Seq<char>) -> Result<
    Option<(Seq<char>, Seq<char>)>,
    ParsingFailure,
> {
    match strip_suffix(line, crlf()) {
        None => Err(
            ParsingFailure {
                kind: HttpRequestParsingErrorKind::MalformedHeader,
                message: "Missing CRLF sequence after header"@,
            },
        ),
        Some(text) => if text.len() == 0 {
            Ok(None)
        } else {
            let at = pair_index_from(text, ':', ' ', 0);
            if at >= text.len() {
                Err(
                    ParsingFailure {
                        kind: HttpRequestParsingErrorKind::MalformedHeader,
                        message: "Incorrect header format"@,
                    },
                )
            } else {
                let raw = text.subrange(at + 2, text.len() as int);
                let value = match strip_suffix(raw, crlf()) {
                    Some(v) => v,
                    None => raw,
                };
                Ok(Some((text.subrange(0, at), value)))
            }
        },
    }
}

/// The draft after one header was read. `content-length` sets the declared
/// body length, `accept-encoding` adds the schemes it names, and every
/// header is stored under its lower-case name, a later one replacing an
/// earlier one of that name.
pub open spec fn with_field(draft: DraftRequest, name: Seq<char>, value: Seq<char>) -> Result<
    DraftRequest,
    ParsingFailure,
> {
    let key = lowercase(name);
    let headers = with_entry(draft.headers, key, value);
    if key == "content-length"@ {
        match parse_number(value) {
            None => Err(
                ParsingFailure {
                    kind: HttpRequestParsingErrorKind::InvalidContentLength,
                    message: "Invalid content-length header"@,
                },
            ),
            Some(n) => Ok(DraftRequest { content_length: n, headers, ..draft }),
        }
    } else if key == "accept-encoding"@ {
        Ok(
            DraftRequest {
                accepted_encodings: with_encodings(draft.accepted_encodings, value),
                headers,
                ..draft
            },
        )
    } else {
        Ok(DraftRequest { headers, ..draft })
    }
}

/// The draft after one line of the header section, and whether more lines
/// are to be read.
pub open spec fn after_header_line(draft: DraftRequest, line: Seq<char>) -> Result<
    (DraftRequest, bool),
    ParsingFailure,
> {
    match parse_header_line(line) {
        Err(f) => Err(f),
        Ok(None) => Ok((draft, false)),
        Ok(Some((name, value))) => match with_field(draft, name, value) {
            Err(f) => Err(f),
            Ok(next) => Ok((next, true)),
        },
    }
}

/// The request that a draft stands for.
pub open spec fn built(draft: DraftRequest) -> HttpRequestView {
    HttpRequestView {
        method: draft.method,
        target: draft.target,
        headers: draft.headers,
        body: draft.body,
        accepted_encodings: draft.accepted_encodings,
    }
}

/// A request under construction.
#[derive(Debug)]
pub struct HttpRequestBuilder {
    method: HttpMethod,
    target: String,
    headers: HttpHeaders,
    body: Option<Bytes>,
    accepted_encodings: Vec<HttpEncodingScheme>,
    content_length: usize,
}

impl View for HttpRequestBuilder {
    type V = DraftRequest;

    closed spec fn view(&self) -> DraftRequest {
        DraftRequest {
            method: self.method,
            target: self.target@,
            headers: self.headers@,
            body: body_bytes(self.body),
            accepted_encodings: self.accepted_encodings@,
            content_length: self.content_length,
        }
    }
}

/// The method that the text of `v` between `lo` and `hi` names.
fn method_in(v: &Vec<char>, lo: usize, hi: usize) -> (m: Option<HttpMethod>)
    requires
        lo <= hi <= v.len(),
    ensures
        m == method_of(v@.subrange(lo as int, hi as int)),
{
    if range_is(v, lo, hi, "GET") {
        Some(HttpMethod::GET)
    } else if range_is(v, lo, hi, "POST") {
        Some(HttpMethod::POST)
    } else if range_is(v, lo, hi, "PUT") {
        Some(HttpMethod::PUT)
    } else if range_is(v, lo, hi, "DELETE") {
        Some(HttpMethod::DELETE)
    } else if range_is(v, lo, hi, "HEAD") {
        Some(HttpMethod::HEAD)
    } else if range_is(v, lo, hi, "OPTIONS") {
        Some(HttpMethod::OPTIONS)
    } else {
        None
    }
}

impl HttpRequestBuilder {
    /// Starts a request from its first line, as `parse_request_line` reads
    /// it.
    pub fn from_request_line(request_line: &str) -> (r: Result<Self, HttpRequestParsingError>)
        ensures
            match parse_request_line(request_line@) {
                Ok((method, target)) => r matches Ok(b) && b@ == fresh_draft(method, target),
                Err(f) => r matches Err(e) && e@ == f,
            },
    {
        let v = chars_of(request_line);
        let n = v.len();
        let ghost line = request_line@;
        let s1 = find_from(&v, ' ', 0);
        assert(before_first(line, ' ') == line.subrange(0, s1 as int));
        let method = match method_in(&v, 0, s1) {
            Some(m) => m,
            None => {
                let message = String::from_str("Invalid HTTP verb: ").concat(
                    request_line.substring_char(0, s1),
                );
                return Err(
                    HttpRequestParsingError::new(HttpRequestParsingErrorKind::InvalidVerb, message),
                );
            },
        };
        if s1 == n {
            return Err(
                HttpRequestParsingError::new(
                    HttpRequestParsingErrorKind::InvalidTarget,
                    String::from_str("Missing request target"),
                ),
            );
        }
        let ghost rest = line.subrange(s1 + 1, n as int);
        let s2 = find_from(&v, ' ', s1 + 1);
        proof {
            lemma_index_of_tail(line, ' ', s1 + 1);
            assert(after_first(line, ' ') == Some(rest));
            assert(before_first(rest, ' ') =~= line.subrange(s1 + 1, s2 as int));
        }
        if !(s2 > s1 + 1 && v[s1 + 1] == '/') {
            return Err(
                HttpRequestParsingError::new(
                    HttpRequestParsingErrorKind::InvalidTarget,
                    String::from_str("Request target must start with /"),
                ),
            );
        }
        let s3 = if s2 == n {
            n
        } else {
            find_from(&v, ' ', s2 + 1)
        };
        let ghost version = version_token(rest);
        proof {
            if s2 < n {
                let tail = line.subrange(s2 + 1, n as int);
                lemma_index_of_tail(line, ' ', s2 + 1);
                assert(after_first(rest, ' ').unwrap() =~= tail);
                assert(before_first(tail, ' ') =~= line.subrange(s2 + 1, s3 as int));
                assert(version == Some(line.subrange(s2 + 1, s3 as int)));
            } else {
                assert(version.is_none());
            }
        }
        if s2 < n && range_is(&v, s2 + 1, s3, "HTTP/1.1\r\n") {
            let target = String::from_str(request_line.substring_char(s1 + 1, s2));
            Ok(
                HttpRequestBuilder {
                    method,
                    target,
                    headers: HttpHeaders::new(),
                    body: None,
                    accepted_encodings: Vec::new(),
                    content_length: 0,
                },
            )
        } else {
            let found = if s2 < n {
                request_line.substring_char(s2 + 1, s3)
            } else {
                proof {
                    reveal_strlit("");
                }
                ""
            };
            let message = String::from_str(
                "Invalid HTTP version or missing CRLF sequence: ",
            ).concat(found);
            assert(found@ =~= match version {
                Some(v) => v,
                None => Seq::<char>::empty(),
            });
            Err(
                HttpRequestParsingError::new(
                    HttpRequestParsingErrorKind::InvalidVersion,
                    message,
                ),
            )
        }
    }

    /// Stores `header_value` under the lower-case form of `header_name`; a
    /// value already stored under it is replaced.
    pub fn header(&mut self, header_name: &str, header_value: &str)
        ensures
            final(self)@ == (DraftRequest {
                headers: with_entry(old(self)@.headers, lowercase(header_name@), header_value@),
                ..old(self)@
            }),
    {
        self.headers.insert(header_name, header_value);
    }

    /// Sets the body.
    pub fn body(&mut self, body: Bytes)
        ensures
            final(self)@ == (DraftRequest { body: Some(contents(body)), ..old(self)@ }),
    {
        self.body = Some(body);
    }

    /// Adds the scheme that `encoding_name` names to the accepted
    /// encodings; an unrecognised name changes nothing.
    pub fn accept_encoding(&mut self, encoding_name: &str)
        ensures
            final(self)@ == (DraftRequest {
                accepted_encodings: with_encoding(
                    old(self)@.accepted_encodings,
                    encoding_name@,
                ),
                ..old(self)@
            }),
    {
        let v = chars_of(encoding_name);
        assert(v@.subrange(0, v.len() as int) =~= v@);
        if range_is(&v, 0, v.len(), "gzip") {
            self.accepted_encodings.push(HttpEncodingScheme::Gzip);
        }
    }

    /// Adds the schemes that the space-separated tokens of `value` name.
    fn accept_encodings(&mut self, value: &Vec<char>)
        ensures
            final(self)@ == (DraftRequest {
                accepted_encodings: with_encodings(old(self)@.accepted_encodings, value@),
                ..old(self)@
            }),
    {
        let n = value.len();
        let ghost goal = with_encodings(self@.accepted_encodings, value@);
        let mut lo: usize = 0;
        let mut done = false;
        assert(value@.subrange(0, n as int) =~= value@);
        while !done
            invariant
                n == value.len(),
                lo <= n,
                self@ == (DraftRequest {
                    accepted_encodings: self@.accepted_encodings,
                    ..old(self)@
                }),
                !done ==> with_encodings(
                    self@.accepted_encodings,
                    value@.subrange(lo as int, n as int),
                ) == goal,
                done ==> self@.accepted_encodings == goal,
            decreases n - lo + (if done { 0int } else { 1int }),
        {
            let ghost tail = value@.subrange(lo as int, n as int);
            let end = find_from(value, ' ', lo);
            proof {
                lemma_index_of_tail(value@, ' ', lo as int);
                assert(before_first(tail, ' ') =~= value@.subrange(lo as int, end as int));
                if end < n {
                    assert(after_first(tail, ' ').unwrap() =~= value@.subrange(
                        end + 1,
                        n as int,
                    ));
                }
            }
            if range_is(value, lo, end, "gzip") {
                self.accepted_encodings.push(HttpEncodingScheme::Gzip);
            }
            if end < n {
                lo = end + 1;
            } else {
                done = true;
            }
        }
    }

    /// Reads one line of the header section, CRLF included, as
    /// `after_header_line` says. Returns whether more lines are to be read;
    /// a line that is refused leaves the draft as it was.
    pub fn header_line(&mut self, line: &str) -> (r: Result<bool, HttpRequestParsingError>)
        ensures
            match after_header_line(old(self)@, line@) {
                Ok((next, more)) => r matches Ok(m) && m == more && final(self)@ == next,
                Err(f) => r matches Err(e) && e@ == f && final(self)@ == old(self)@,
            },
    {
        let mut v = chars_of(line);
        let n = v.len();
        if !(n >= 2 && v[n - 2] == '\r' && v[n - 1] == '\n') {
            proof {
                if n >= 2 {
                    let end = line@.subrange(n - 2, n as int);
                    assert(end[0] == line@[n - 2] && end[1] == line@[n - 1]);
                }
            }
            return Err(
                HttpRequestParsingError::new(
                    HttpRequestParsingErrorKind::MalformedHeader,
                    String::from_str("Missing CRLF sequence after header"),
                ),
            );
        }
        assert(line@.subrange(n - 2, n as int) =~= crlf());
        v.truncate(n - 2);
        let m = v.len();
        let ghost text = v@;
        assert(strip_suffix(line@, crlf()) == Some(text));
        if m == 0 {
            return Ok(false);
        }
        let at = find_pair_from(&v, ':', ' ', 0);
        proof {
            lemma_pair_index_from(text, ':', ' ', 0);
        }
        if at >= m {
            return Err(
                HttpRequestParsingError::new(
                    HttpRequestParsingErrorKind::MalformedHeader,
                    String::from_str("Incorrect header format"),
                ),
            );
        }
        let ghost raw = text.subrange(at + 2, m as int);
        let stripped = m - (at + 2) >= 2 && v[m - 2] == '\r' && v[m - 1] == '\n';
        let end = if stripped {
            m - 2
        } else {
            m
        };
        proof {
            if m - (at + 2) >= 2 {
                let last = raw.subrange(raw.len() - 2, raw.len() as int);
                assert(last[0] == text[m - 2] && last[1] == text[m - 1]);
                if stripped {
                    assert(last =~= crlf());
                    assert(raw.subrange(0, raw.len() - 2) =~= text.subrange(at + 2, end as int));
                }
            }
            assert(line@.subrange(0, at as int) =~= text.subrange(0, at as int));
            assert(line@.subrange(at + 2, end as int) =~= text.subrange(at + 2, end as int));
        }
        let name = line.substring_char(0, at);
        let value = line.substring_char(at + 2, end);
        let key = to_lowercase(name);
        if key == String::from_str("content-length") {
            let digits = chars_of(value);
            match parse_usize(&digits) {
                Some(length) => {
                    self.content_length = length;
                },
                None => {
                    return Err(
                        HttpRequestParsingError::new(
                            HttpRequestParsingErrorKind::InvalidContentLength,
                            String::from_str("Invalid content-length header"),
                        ),
                    );
                },
            }
        } else if key == String::from_str("accept-encoding") {
            let tokens = chars_of(value);
            self.accept_encodings(&tokens);
        }
        self.headers.insert_exact(key, String::from_str(value));
        Ok(true)
    }

    /// The length of the body that the headers read so far declare, where
    /// it is positive: the number of bytes to read after the blank line.
    pub fn pending_body(&self) -> (n: Option<usize>)
        ensures
            n == (if self@.content_length > 0 {
                Some(self@.content_length)
            } else {
                None
            }),
    {
        if self.content_length > 0 {
            Some(self.content_length)
        } else {
            None
        }
    }

    /// The finished request.
    pub fn build(self) -> (request: HttpRequest)
        ensures
            request@ == built(self@),
    {
        HttpRequest {
            method: self.method,
            target: self.target,
            headers: self.headers,
            body: self.body,
            accepted_encodings: self.accepted_encodings,
        }
    }
}

/// The index just past the first line feed at or after `from`, or the end
/// of the input if there is none: where the line that starts at `from` ends.
pub open spec fn line_end(input: Seq<u8>, from: int) -> int {
    let i = index_from(input, 10u8, from);
    if i < input.len() {
        i + 1
    } else {
        input.len() as int
    }
}

/// The line that starts at `from`, line feed included, as text; `None` if
/// its bytes are not well-formed UTF-8.
pub open spec fn line_at(input: Seq<u8>, from: int) -> Option<Seq<char>> {
    let raw = input.subrange(from, line_end(input, from));
    if valid_utf8(raw) {
        Some(decode_utf8(raw))
    } else {
        None
    }
}

/// The failure for a line that is no text.
pub open spec fn not_text() -> ParsingFailure {
    ParsingFailure {
        kind: HttpRequestParsingErrorKind::IoError,
        message: "stream did not contain valid UTF-8"@,
    }
}

/// The failure for input that ends before the header section does.
pub open spec fn unfinished_headers() -> ParsingFailure {
    ParsingFailure {
        kind: HttpRequestParsingErrorKind::MalformedHeader,
        message: "Missing CRLF sequence after header"@,
    }
}

/// The failure for input that ends before the declared body does.
pub open spec fn short_body() -> ParsingFailure {
    ParsingFailure {
        kind: HttpRequestParsingErrorKind::IoError,
        message: "failed to fill whole buffer"@,
    }
}

/// The draft after the header section that starts at `from` was read line
/// by line up to its blank line, and the index at which the body starts.
pub open spec fn decode_fields(draft: DraftRequest, input: Seq<u8>, from: int) -> Result<
    (DraftRequest, int),
    ParsingFailure,
>
    decreases input.len() - from,
{
    if from < 0 || from >= input.len() {
        Err(unfinished_headers())
    } else {
        match line_at(input, from) {
            None => Err(not_text()),
            Some(line) => match after_header_line(draft, line) {
                Err(f) => Err(f),
                Ok((next, false)) => Ok((next, line_end(input, from))),
                Ok((next, true)) => {
                    proof {
                        lemma_index_from(input, 10u8, from);
                    }
                    decode_fields(next, input, line_end(input, from))
                },
            },
        }
    }
}

/// The request that `input` holds and the number of bytes it takes up: the
/// request line, the header lines up to the blank line and, where a
/// positive `content-length` was declared, that many bytes of body.
pub open spec fn decode(input: Seq<u8>) -> Result<(HttpRequestView, int), ParsingFailure> {
    match line_at(input, 0) {
        None => Err(not_text()),
        Some(line) => match parse_request_line(line) {
            Err(f) => Err(f),
            Ok((method, target)) => match decode_fields(
                fresh_draft(method, target),
                input,
                line_end(input, 0),
            ) {
                Err(f) => Err(f),
                Ok((draft, at)) => if draft.content_length == 0 {
                    Ok((built(draft), at))
                } else if input.len() - at < draft.content_length {
                    Err(short_body())
                } else {
                    Ok(
                        (
                            built(
                                DraftRequest {
                                    body: Some(input.subrange(at, at + draft.content_length)),
                                    ..draft
                                },
                            ),
                            at + draft.content_length,
                        ),
                    )
                },
            },
        },
    }
}

/// Whether `r` is what decoding `input` gives: the request that `decode`
/// describes, or the failure that it describes.
pub open spec fn decodes_to(input: Seq<u8>, r: Result<HttpRequest, HttpRequestParsingError>) -> bool {
    match decode(input) {
        Ok((request, used)) => r matches Ok(q) && q@ == request,
        Err(f) => r matches Err(e) && e@ == f,
    }
}

/// The line that starts at `from`, and the index at which it ends.
fn read_line(input: &[u8], from: usize) -> (r: (Option<&str>, usize))
    requires
        from <= input.len(),
    ensures
        r.1 == line_end(input@, from as int),
        from <= r.1 <= input.len(),
        from < input.len() ==> from < r.1,
        r.0.is_some() == line_at(input@, from as int).is_some(),
        r.0 matches Some(s) ==> line_at(input@, from as int) == Some(s@),
{
    let i = find_byte_from(input, 10u8, from);
    let end = if i < input.len() {
        i + 1
    } else {
        i
    };
    (text_of(slice_subrange(input, from, end)), end)
}

/// Decodes the request at the start of `input`, as `decode` describes it,
/// and says how many bytes it took up. No byte after those is looked at.
pub fn decode_request(input: &[u8]) -> (r: Result<(HttpRequest, usize), HttpRequestParsingError>)
    ensures
        match decode(input@) {
            Ok((request, used)) => r matches Ok(p) && p.0@ == request && p.1 == used,
            Err(f) => r matches Err(e) && e@ == f,
        },
{
    let (first, first_end) = read_line(input, 0);
    let line = match first {
        Some(line) => line,
        None => {
            return Err(
                HttpRequestParsingError::new(
                    HttpRequestParsingErrorKind::IoError,
                    String::from_str("stream did not contain valid UTF-8"),
                ),
            );
        },
    };
    let mut builder = match HttpRequestBuilder::from_request_line(line) {
        Ok(builder) => builder,
        Err(e) => {
            return Err(e);
        },
    };
    let ghost goal = decode_fields(builder@, input@, first_end as int);
    let mut at: usize = first_end;
    let mut more = true;
    while more
        invariant
            at <= input.len(),
            goal matches Err(f) ==> decode(input@) == Err::<(HttpRequestView, int), ParsingFailure>(
                f,
            ),
            more ==> decode_fields(builder@, input@, at as int) == goal,
            !more ==> goal == Ok::<(DraftRequest, int), ParsingFailure>((builder@, at as int)),
        decreases input.len() - at + (if more { 1int } else { 0int }),
    {
        if at >= input.len() {
            return Err(
                HttpRequestParsingError::new(
                    HttpRequestParsingErrorKind::MalformedHeader,
                    String::from_str("Missing CRLF sequence after header"),
                ),
            );
        }
        let (text, end) = read_line(input, at);
        let line = match text {
            Some(line) => line,
            None => {
                return Err(
                    HttpRequestParsingError::new(
                        HttpRequestParsingErrorKind::IoError,
                        String::from_str("stream did not contain valid UTF-8"),
                    ),
                );
            },
        };
        match builder.header_line(line) {
            Ok(go_on) => {
                more = go_on;
            },
            Err(e) => {
                return Err(e);
            },
        }
        at = end;
    }
    match builder.pending_body() {
        None => Ok((builder.build(), at)),
        Some(length) => {
            if input.len() - at < length {
                return Err(
                    HttpRequestParsingError::new(
                        HttpRequestParsingErrorKind::IoError,
                        String::from_str("failed to fill whole buffer"),
                    ),
                );
            }
            let body = slice_to_vec(slice_subrange(input, at, at + length));
            builder.body(bytes_from_vec(body));
            Ok((builder.build(), at + length))
        },
    }
}

/// A source of bytes from which one request can be read.
pub trait HttpRequestReader {
    /// The bytes that the source yields. A source that does not say what
    /// they are leaves them unspecified.
    open spec fn incoming(&self) -> Seq<u8> {
        arbitrary()
    }

    /// Whether the source hands over its bytes without failing, so that
    /// reading gives exactly what they decode to. A source that does not
    /// say leaves it unspecified.
    open spec fn faithful(&self) -> bool {
        arbitrary()
    }

    /// Reads one request from the source. A request comes back only where
    /// the bytes of the source decode to it, and a faithful source gives
    /// the request or the failure that they decode to.
    fn read_http_req(&self) -> (r: Result<HttpRequest, HttpRequestParsingError>)
        ensures
            r matches Ok(request) ==> decode(self.incoming()) matches Ok(decoded) && request@
                == decoded.0,
            self.faithful() ==> decodes_to(self.incoming(), r),
    ;
}

/// Reading the header section changes neither the method nor the target
/// nor the body of a draft, and ends within the input.
pub proof fn lemma_decode_fields_keeps_request_line(draft: DraftRequest, input: Seq<u8>, from: int)
    requires
        0 <= from <= input.len(),
        decode_fields(draft, input, from).is_ok(),
    ensures
        decode_fields(draft, input, from) matches Ok(p) && p.0.method == draft.method
            && p.0.target == draft.target && p.0.body == draft.body && from <= p.1
            <= input.len(),
    decreases input.len() - from,
{
    lemma_index_from(input, 10u8, from);
    let line = line_at(input, from)->Some_0;
    match after_header_line(draft, line) {
        Ok((next, true)) => {
            lemma_decode_fields_keeps_request_line(next, input, line_end(input, from));
        },
        _ => {},
    }
}

/// A request that was decoded has a target that begins with `/`, has a body
/// exactly where a positive length was declared, and takes up no more bytes
/// than the input holds.
pub proof fn lemma_decoded_request_is_well_formed(input: Seq<u8>)
    requires
        decode(input).is_ok(),
    ensures
        decode(input) matches Ok(p) && p.0.target.len() > 0 && p.0.target[0] == '/' && 0 < p.1
            <= input.len() && (p.0.body matches Some(body) ==> 0 < body.len() <= p.1),
{
    lemma_index_from(input, 10u8, 0);
    let line = line_at(input, 0)->Some_0;
    let (method, target) = parse_request_line(line)->Ok_0;
    if input.len() == 0 {
        assert(input.subrange(0, 0) =~= Seq::<u8>::empty());
    }
    lemma_decode_fields_keeps_request_line(
        fresh_draft(method, target),
        input,
        line_end(input, 0),
    );
}

/// Decoding is a function of the bytes: two results of decoding the same
/// input are the same request, or the same failure.
pub proof fn lemma_decoding_is_deterministic(
    input: Seq<u8>,
    a: Result<HttpRequest, HttpRequestParsingError>,
    b: Result<HttpRequest, HttpRequestParsingError>,
)
    requires
        decodes_to(input, a),
        decodes_to(input, b),
    ensures
        a is Ok <==> b is Ok,
        a matches Ok(x) ==> b matches Ok(y) && x@ == y@,
        a matches Err(x) ==> b matches Err(y) && x@ == y@,
{
}

} // verus!
