use crate::request::{
    decode, decode_request, HttpRequest, HttpRequestParsingError, HttpRequestReader,
};
use crate::response::{encode_response, wire_image, HttpResponse, HttpResponseWriter};
use crate::router::HttpRouter;
use vstd::prelude::*;

verus! {

/// Why an exchange ended without a delivered response.
#[derive(Debug)]
pub enum DispatchError {
    /// The request could not be decoded; nothing was written.
    Request(HttpRequestParsingError),
    /// The transport failed while the response was written or flushed.
    Transport(std::io::Error),
}

/// Nothing was written to the transport or delivered by it.
pub open spec fn untouched<S: HttpResponseWriter>(before: S, after: S) -> bool {
    after.written() == before.written() && after.delivered() == before.delivered()
}

/// The response `res`, of `n` bytes, was written to the transport after
/// what it held, and all that was written is delivered.
pub open spec fn sent<S: HttpResponseWriter>(before: S, after: S, res: HttpResponse, n: usize) -> bool {
    after.written() == before.written() + wire_image(res@) && after.delivered()
        == after.written() && n == wire_image(res@).len()
}

/// Serves one exchange on `stream`: reads one request, routes it, writes
/// the one response and flushes. Where the request cannot be read, nothing
/// is written. The transport can fail only after a request was decoded.
/// Returns the number of bytes of the response. On a stream
/// that is faithful and reliable, the exchange ends in a delivered response
/// exactly where the bytes decode to a request, and else in the failure
/// that they decode to.
pub fn dispatch<R: HttpRouter, S: HttpRequestReader + HttpResponseWriter>(
    router: &R,
    stream: &mut S,
) -> (r: Result<usize, DispatchError>)
    requires
        router.ready(),
    ensures
        r matches Err(DispatchError::Request(_)) ==> untouched(*old(stream), *final(stream)),
        r matches Err(DispatchError::Transport(_)) ==> decode(old(stream).incoming()).is_ok(),
        r matches Ok(n) ==> exists|req: HttpRequest, res: HttpResponse|
            decode(old(stream).incoming()) matches Ok(decoded) && req@ == decoded.0
                && #[trigger] router.answers(req, res) && sent(
                *old(stream),
                *final(stream),
                res,
                n,
            ),
        old(stream).faithful() && old(stream).reliable() ==> match decode(
            old(stream).incoming(),
        ) {
            Ok(_) => r is Ok,
            Err(f) => r matches Err(DispatchError::Request(e)) && e@ == f,
        },
{
    let req = match stream.read_http_req() {
        Ok(req) => req,
        Err(e) => {
            return Err(DispatchError::Request(e));
        },
    };
    let ghost asked = req;
    let res = router.dispatch(req);
    let ghost answer = res;
    let n = match stream.write_http_res(res) {
        Ok(n) => n,
        Err(e) => {
            return Err(DispatchError::Transport(e));
        },
    };
    match stream.flush() {
        Ok(_) => {
            assert(router.answers(asked, answer));
            Ok(n)
        },
        Err(e) => Err(DispatchError::Transport(e)),
    }
}

/// A transport in memory: the bytes that a peer sent, and what was written
/// back and delivered to it.
#[derive(Debug)]
pub struct MemoryStream {
    pub incoming: Vec<u8>,
    pub written: Vec<u8>,
    pub delivered: Vec<u8>,
}

impl MemoryStream {
    /// A transport on which `incoming` waits to be read and nothing was
    /// written yet.
    pub fn new(incoming: Vec<u8>) -> (stream: Self)
        ensures
            stream.incoming == incoming,
            stream.written@ == Seq::<u8>::empty(),
            stream.delivered@ == Seq::<u8>::empty(),
    {
        MemoryStream { incoming, written: Vec::new(), delivered: Vec::new() }
    }
}

impl HttpRequestReader for MemoryStream {
    open spec fn incoming(&self) -> Seq<u8> {
        self.incoming@
    }

    open spec fn faithful(&self) -> bool {
        true
    }

    /// Decodes the request at the start of the incoming bytes.
    fn read_http_req(&self) -> (r: Result<HttpRequest, HttpRequestParsingError>) {
        match decode_request(self.incoming.as_slice()) {
            Ok((request, _)) => Ok(request),
            Err(e) => Err(e),
        }
    }
}

impl HttpResponseWriter for MemoryStream {
    open spec fn written(&self) -> Seq<u8> {
        self.written@
    }

    open spec fn delivered(&self) -> Seq<u8> {
        self.delivered@
    }

    open spec fn reliable(&self) -> bool {
        true
    }

    /// Appends the response to what was written; this cannot fail.
    fn write_http_res(&mut self, res: HttpResponse) -> (r: Result<usize, std::io::Error>)
        ensures
            final(self).incoming == old(self).incoming,
    {
        let mut bytes = encode_response(&res);
        let n = bytes.len();
        self.written.append(&mut bytes);
        Ok(n)
    }

    /// Delivers what was written; this cannot fail.
    fn flush(&mut self) -> (r: Result<(), std::io::Error>)
        ensures
            final(self).incoming == old(self).incoming,
    {
        self.delivered = self.written.clone();
        Ok(())
    }
}

/// The value that follows the first `--directory` among `args`, if there is
/// such an argument and one after it.
pub open spec fn directory_flag(args: Seq<String>) -> Option<String> {
    let i = first_flag(args, 0);
    if i + 1 < args.len() {
        Some(args[i + 1])
    } else {
        None
    }
}

/// The first index at or after `from` at which `args` holds `--directory`,
/// or `args.len()` if there is none.
pub open spec fn first_flag(args: Seq<String>, from: int) -> int
    decreases args.len() - from,
{
    if from < 0 || from >= args.len() {
        args.len() as int
    } else if args[from]@ == "--directory"@ {
        from
    } else {
        first_flag(args, from + 1)
    }
}

/// The root directory that the command line names with `--directory`.
pub fn parse_directory_flag(argv: &Vec<String>) -> (r: Option<String>)
    ensures
        r.is_some() == directory_flag(argv@).is_some(),
        r matches Some(dir) ==> dir@ == directory_flag(argv@).unwrap()@,
{
    let flag = "--directory".to_owned();
    let mut i: usize = 0;
    while i < argv.len() && argv[i] != flag
        invariant
            i <= argv.len(),
            flag@ == "--directory"@,
            first_flag(argv@, 0) == first_flag(argv@, i as int),
        decreases argv.len() - i,
    {
        i += 1;
    }
    if i < argv.len() && i + 1 < argv.len() {
        Some(argv[i + 1].clone())
    } else {
        None
    }
}

} // verus!
