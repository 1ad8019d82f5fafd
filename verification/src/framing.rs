use crate::request::{
    after_header_line, crlf, decode, decode_fields, fresh_draft,
    lemma_decode_fields_keeps_request_line, line_at, line_end, parse_header_line,
    parse_request_line, version_token, DraftRequest,
};
use crate::text::{
    after_first, index_from, index_of, lemma_index_from, lemma_index_from_is, strip_suffix,
};
use vstd::prelude::*;
use vstd::utf8::{decode_utf8_encode_utf8, encode_scalar, encode_utf8};

verus! {

/// Whether `bytes` holds a line feed.
pub open spec fn holds_feed(bytes: Seq<u8>) -> bool {
    exists|j: int| 0 <= j < bytes.len() && #[trigger] bytes[j] == 10u8
}

/// The UTF-8 encoding of a text that holds a line feed holds the byte of
/// the line feed.
pub proof fn lemma_feed_is_encoded(text: Seq<char>, k: int)
    requires
        0 <= k < text.len(),
        text[k] == '\n',
    ensures
        holds_feed(encode_utf8(text)),
    decreases text.len(),
{
    let head = encode_scalar(text[0] as u32);
    let rest = encode_utf8(text.drop_first());
    let whole = encode_utf8(text);
    assert(whole == head + rest);
    if k == 0 {
        assert(10u32 & 0x7F == 10u32) by (bit_vector);
        assert(head =~= seq![10u8]);
        assert(whole[0] == 10u8);
    } else {
        lemma_feed_is_encoded(text.drop_first(), k - 1);
        let j = choose|j: int| 0 <= j < rest.len() && #[trigger] rest[j] == 10u8;
        assert(whole[head.len() + j] == 10u8);
    }
}

/// A line whose text holds a line feed ends within the input, at that line
/// feed.
pub proof fn lemma_line_with_feed_is_complete(input: Seq<u8>, from: int, k: int)
    requires
        0 <= from <= input.len(),
        line_at(input, from).is_some(),
        0 <= k < line_at(input, from)->Some_0.len(),
        line_at(input, from)->Some_0[k] == '\n',
    ensures
        index_from(input, 10u8, from) < input.len(),
{
    lemma_index_from(input, 10u8, from);
    let raw = input.subrange(from, line_end(input, from));
    let text = line_at(input, from)->Some_0;
    decode_utf8_encode_utf8(raw);
    lemma_feed_is_encoded(text, k);
    let j = choose|j: int| 0 <= j < raw.len() && #[trigger] raw[j] == 10u8;
    assert(input[from + j] == 10u8);
}

/// Two inputs that agree on their first `n` bytes hold the same line at
/// `from`, where that line ends within those bytes.
pub proof fn lemma_same_line(a: Seq<u8>, b: Seq<u8>, n: int, from: int)
    requires
        0 <= from <= a.len(),
        index_from(a, 10u8, from) < n,
        0 <= n <= a.len(),
        n <= b.len(),
        a.subrange(0, n) == b.subrange(0, n),
    ensures
        line_end(b, from) == line_end(a, from),
        line_at(b, from) == line_at(a, from),
{
    lemma_index_from(a, 10u8, from);
    let i = index_from(a, 10u8, from);
    assert forall|k: int| 0 <= k < n implies a[k] == b[k] by {
        let x = a.subrange(0, n);
        let y = b.subrange(0, n);
        assert(x[k] == a[k]);
        assert(y[k] == b[k]);
    }
    lemma_index_from_is(b, 10u8, from, i);
    assert(a.subrange(from, i + 1) =~= b.subrange(from, i + 1));
}

/// Reading the header section looks at no byte after the blank line.
pub proof fn lemma_fields_ignore_what_follows(
    draft: DraftRequest,
    a: Seq<u8>,
    b: Seq<u8>,
    n: int,
    from: int,
)
    requires
        0 <= from <= a.len(),
        decode_fields(draft, a, from) matches Ok(p) && p.1 <= n,
        0 <= n <= a.len(),
        n <= b.len(),
        a.subrange(0, n) == b.subrange(0, n),
    ensures
        decode_fields(draft, b, from) == decode_fields(draft, a, from),
    decreases a.len() - from,
{
    lemma_index_from(a, 10u8, from);
    let text = line_at(a, from)->Some_0;
    let stripped = strip_suffix(text, crlf())->Some_0;
    assert(parse_header_line(text).is_ok());
    assert(strip_suffix(text, crlf()).is_some());
    let last = text.subrange(text.len() - 2, text.len() as int);
    assert(last[1] == text[text.len() - 1]);
    lemma_line_with_feed_is_complete(a, from, text.len() - 1);
    match after_header_line(draft, text) {
        Ok((next, true)) => {
            lemma_decode_fields_keeps_request_line(next, a, line_end(a, from));
            lemma_same_line(a, b, n, from);
            lemma_fields_ignore_what_follows(next, a, b, n, line_end(a, from));
        },
        _ => {
            lemma_same_line(a, b, n, from);
        },
    }
}

/// Decoding looks at no byte after those that the request takes up: an
/// input that agrees with `input` on those bytes decodes to the same
/// request, whatever follows them.
pub proof fn lemma_decoding_ignores_what_follows(input: Seq<u8>, other: Seq<u8>)
    requires
        decode(input) matches Ok(p) && p.1 <= other.len() && other.subrange(0, p.1)
            == input.subrange(0, p.1),
    ensures
        decode(other) == decode(input),
{
    let used = decode(input)->Ok_0.1;
    lemma_index_from(input, 10u8, 0);
    let text = line_at(input, 0)->Some_0;
    let (method, target) = parse_request_line(text)->Ok_0;
    let first = fresh_draft(method, target);
    let end = line_end(input, 0);
    lemma_index_from(text, ' ', 0);
    let rest = after_first(text, ' ')->Some_0;
    lemma_index_from(rest, ' ', 0);
    let tail = after_first(rest, ' ')->Some_0;
    lemma_index_from(tail, ' ', 0);
    let version = version_token(rest)->Some_0;
    reveal_strlit("HTTP/1.1\r\n");
    assert(version == "HTTP/1.1\r\n"@);
    assert(version[9] == '\n');
    let at = index_of(text, ' ') + 1 + index_of(rest, ' ') + 1 + 9;
    assert(version[9] == tail[9]);
    assert(tail[9] == rest[index_of(rest, ' ') + 1 + 9]);
    assert(text[at] == '\n');
    lemma_line_with_feed_is_complete(input, 0, at);
    if input.len() > 0 {
        lemma_decode_fields_keeps_request_line(first, input, end);
    }
    lemma_same_line(input, other, used, 0);
    lemma_fields_ignore_what_follows(first, input, other, used, end);
    let body_at = decode_fields(first, input, end)->Ok_0.1;
    assert(input.subrange(body_at, used) =~= other.subrange(body_at, used)) by {
        assert forall|k: int| body_at <= k < used implies input[k] == other[k] by {
            assert(input.subrange(0, used)[k] == other.subrange(0, used)[k]);
        }
    }
}

} // verus!
