//! Responses: status, headers and body, with builders whose contracts pin
//! every header name and value and the exact body bytes.

use vstd::prelude::*;
use vstd::string::StringSliceAdditionalSpecFns;
use crate::digits::{chars_of, dec_chars, dec_bytes, lemma_dec_bytes_ascii, push_dec_u64};
use crate::text::{all_ascii_bytes, push_ascii_str, string_from_ascii};

verus! {

/// A response as the transport layer sends it.
pub struct HttpResponse {
    pub status: u16,
    pub headers: Vec<(String, String)>,
    pub body: Vec<u8>,
}

impl HttpResponse {
    /// The headers as mathematical pairs of character sequences.
    pub open spec fn headers_model(self) -> Seq<(Seq<char>, Seq<char>)> {
        self.headers@.map_values(|p: (String, String)| (p.0@, p.1@))
    }
}

/// The decimal numeral of `n`, as header values carry it.
pub open spec fn spec_dec(n: u64) -> Seq<char> {
    dec_chars(n as nat)
}

/// The value of a `Content-Range` header framing the served interval.
pub open spec fn content_range_text(start: u64, end: u64, len: u64) -> Seq<char> {
    "bytes "@ + spec_dec(start) + "-"@ + spec_dec(end) + "/"@ + spec_dec(len)
}

/// The value of the `Content-Range` header of a not-satisfiable response.
pub open spec fn unsat_range_text(len: u64) -> Seq<char> {
    "bytes */"@ + spec_dec(len)
}

/// The headers of a whole-file response.
pub open spec fn full_headers(mime: Seq<char>, len: u64) -> Seq<(Seq<char>, Seq<char>)> {
    seq![
        ("Access-Control-Allow-Origin"@, "*"@),
        ("Content-Type"@, mime),
        ("Content-Length"@, spec_dec(len)),
        ("Accept-Ranges"@, "bytes"@),
    ]
}

/// The headers of a partial-content response.
pub open spec fn partial_headers(mime: Seq<char>, start: u64, end: u64, len: u64) -> Seq<
    (Seq<char>, Seq<char>),
>
    recommends
        start <= end,
{
    seq![
        ("Content-Type"@, mime),
        ("Content-Range"@, content_range_text(start, end, len)),
        ("Content-Length"@, spec_dec((end - start + 1) as u64)),
        ("Access-Control-Allow-Origin"@, "*"@),
        ("Accept-Ranges"@, "bytes"@),
    ]
}

/// The headers of a not-satisfiable response.
pub open spec fn unsat_headers(len: u64) -> Seq<(Seq<char>, Seq<char>)> {
    seq![("Content-Range"@, unsat_range_text(len))]
}

/// Render `n` in decimal for a header value.
fn dec_string(n: u64) -> (r: String)
    ensures
        r@ == spec_dec(n),
{
    let mut v: Vec<u8> = Vec::new();
    push_dec_u64(&mut v, n);
    proof {
        lemma_dec_bytes_ascii(n as nat);
        assert(v@ =~= dec_bytes(n as nat));
        assert(all_ascii_bytes(v@));
    }
    string_from_ascii(&v)
}

/// Append a numeral and show the assembled characters so far.
fn push_dec_tracked(v: &mut Vec<u8>, n: u64)
    ensures
        chars_of(final(v)@) == chars_of(old(v)@) + spec_dec(n),
        all_ascii_bytes(old(v)@) ==> all_ascii_bytes(final(v)@),
{
    push_dec_u64(v, n);
    proof {
        lemma_dec_bytes_ascii(n as nat);
        assert(chars_of(v@) =~= chars_of(old(v)@) + spec_dec(n));
        if all_ascii_bytes(old(v)@) {
            assert(all_ascii_bytes(v@));
        }
    }
}

/// Assemble `bytes <start>-<end>/<len>`.
fn content_range_string(start: u64, end: u64, len: u64) -> (r: String)
    ensures
        r@ == content_range_text(start, end, len),
{
    let mut v: Vec<u8> = Vec::new();
    proof {
        reveal_strlit("bytes ");
        reveal_strlit("-");
        reveal_strlit("/");
        assert(vstd::utf8::is_ascii_chars("bytes "@));
        assert(vstd::utf8::is_ascii_chars("-"@));
        assert(vstd::utf8::is_ascii_chars("/"@));
        assert(chars_of(v@) =~= Seq::<char>::empty());
    }
    push_ascii_str(&mut v, "bytes ");
    push_dec_tracked(&mut v, start);
    push_ascii_str(&mut v, "-");
    push_dec_tracked(&mut v, end);
    push_ascii_str(&mut v, "/");
    push_dec_tracked(&mut v, len);
    proof {
        assert(chars_of(v@) =~= content_range_text(start, end, len));
    }
    string_from_ascii(&v)
}

/// Assemble `bytes */<len>`.
fn unsat_range_string(len: u64) -> (r: String)
    ensures
        r@ == unsat_range_text(len),
{
    let mut v: Vec<u8> = Vec::new();
    proof {
        reveal_strlit("bytes */");
        assert(vstd::utf8::is_ascii_chars("bytes */"@));
        assert(chars_of(v@) =~= Seq::<char>::empty());
    }
    push_ascii_str(&mut v, "bytes */");
    push_dec_tracked(&mut v, len);
    proof {
        assert(chars_of(v@) =~= unsat_range_text(len));
    }
    string_from_ascii(&v)
}

/// The response to a path that names no file: status 404, no headers, a
/// plain-text body.
pub fn not_found_response() -> (r: HttpResponse)
    ensures
        r.status == 404,
        r.headers_model() == Seq::<(Seq<char>, Seq<char>)>::empty(),
        r.body@ == "File not found".spec_bytes(),
{
    let body = "File not found".as_bytes_vec();
    let r = HttpResponse { status: 404, headers: Vec::new(), body };
    proof {
        assert(r.headers_model() =~= Seq::<(Seq<char>, Seq<char>)>::empty());
    }
    r
}

/// The response to a failed filesystem operation: status 500, no headers,
/// the error text as the body.
pub fn io_error_response(message: &str) -> (r: HttpResponse)
    ensures
        r.status == 500,
        r.headers_model() == Seq::<(Seq<char>, Seq<char>)>::empty(),
        r.body@ == message.spec_bytes(),
{
    let body = message.as_bytes_vec();
    let r = HttpResponse { status: 500, headers: Vec::new(), body };
    proof {
        assert(r.headers_model() =~= Seq::<(Seq<char>, Seq<char>)>::empty());
    }
    r
}

/// The not-satisfiable response: status 416, a `Content-Range` of the form
/// `bytes */<len>`, and an empty body.
pub fn unsatisfiable_response(len: u64) -> (r: HttpResponse)
    ensures
        r.status == 416,
        r.headers_model() == unsat_headers(len),
        r.body@ == Seq::<u8>::empty(),
{
    let value = unsat_range_string(len);
    let mut headers: Vec<(String, String)> = Vec::new();
    headers.push(("Content-Range".to_owned(), value));
    let r = HttpResponse { status: 416, headers, body: Vec::new() };
    proof {
        assert(r.headers_model() =~= unsat_headers(len));
    }
    r
}

/// The whole-file response: status 200, the length and content type
/// advertised, and the given bytes as the body.
pub fn full_response(mime: &str, len: u64, body: Vec<u8>) -> (r: HttpResponse)
    ensures
        r.status == 200,
        r.headers_model() == full_headers(mime@, len),
        r.body@ == body@,
{
    let mut headers: Vec<(String, String)> = Vec::new();
    headers.push(("Access-Control-Allow-Origin".to_owned(), "*".to_owned()));
    headers.push(("Content-Type".to_owned(), mime.to_owned()));
    headers.push(("Content-Length".to_owned(), dec_string(len)));
    headers.push(("Accept-Ranges".to_owned(), "bytes".to_owned()));
    let r = HttpResponse { status: 200, headers, body };
    proof {
        assert(r.headers_model() =~= full_headers(mime@, len));
    }
    r
}

/// The partial-content response: status 206, the served interval framed in
/// `Content-Range`, its length in `Content-Length`, and the given bytes as
/// the body.
pub fn partial_response(mime: &str, start: u64, end: u64, len: u64, body: Vec<u8>) -> (r:
    HttpResponse)
    requires
        start <= end,
        end - start < u64::MAX,
    ensures
        r.status == 206,
        r.headers_model() == partial_headers(mime@, start, end, len),
        r.body@ == body@,
{
    let mut headers: Vec<(String, String)> = Vec::new();
    headers.push(("Content-Type".to_owned(), mime.to_owned()));
    headers.push(("Content-Range".to_owned(), content_range_string(start, end, len)));
    headers.push(("Content-Length".to_owned(), dec_string(end - start + 1)));
    headers.push(("Access-Control-Allow-Origin".to_owned(), "*".to_owned()));
    headers.push(("Accept-Ranges".to_owned(), "bytes".to_owned()));
    let r = HttpResponse { status: 206, headers, body };
    proof {
        assert(r.headers_model() =~= partial_headers(mime@, start, end, len));
    }
    r
}

/// Copy the inclusive byte interval `[start, end]` out of `content`.
pub fn copy_range(content: &Vec<u8>, start: u64, end: u64) -> (r: Vec<u8>)
    requires
        start <= end < content@.len(),
    ensures
        r@ == content@.subrange(start as int, end as int + 1),
{
    let n = content.len();
    let mut r: Vec<u8> = Vec::new();
    let mut m: usize = start as usize;
    let e: usize = (end as usize) + 1;
    proof {
        assert(r@ =~= content@.subrange(start as int, start as int));
    }
    while m < e
        invariant
            start <= m <= e <= n == content@.len(),
            e == end + 1,
            r@ == content@.subrange(start as int, m as int),
        decreases e - m,
    {
        proof {
            assert(content@.subrange(start as int, m as int + 1) =~= content@.subrange(
                start as int,
                m as int,
            ).push(content@[m as int]));
        }
        r.push(content[m]);
        m = m + 1;
    }
    r
}

} // verus!
