//! Laws of the handler, stated over the specification model and proved once
//! for all inputs: how well-formed numeric range headers resolve, what each
//! response carries, and that equal requests get byte-identical answers.

use vstd::prelude::*;
use crate::digits::{
    dec_chars, is_dec_digit, lemma_dec_chars_digits, lemma_parse_of_dec_chars,
};
use crate::handler::response_models;
use crate::mime::spec_mime;
use crate::range::{
    RangeResolution, first_index_of, is_range_attempt, lemma_first_index_of_none,
    lemma_first_index_of_witness, spec_resolve,
};
use crate::response::{
    HttpResponse, full_headers, partial_headers, spec_dec, unsat_headers,
};

verus! {

/// The header text `bytes=<s>-<e>`.
pub open spec fn range_header_text(s: u64, e: u64) -> Seq<char> {
    "bytes="@ + dec_chars(s as nat) + "-"@ + dec_chars(e as nat)
}

/// The header text `bytes=<s>-`, an open-ended range.
pub open spec fn open_range_header_text(s: u64) -> Seq<char> {
    "bytes="@ + dec_chars(s as nat) + "-"@
}

/// A header `bytes=<s>-<e>` resolves to the interval with both bounds
/// clamped to `len - 1` independently, and fails only when the clamped
/// interval is empty.
pub proof fn lemma_resolve_two_numbers(s: u64, e: u64, len: u64)
    requires
        len >= 1,
    ensures
        ({
            let last = (len - 1) as u64;
            let start = if s < last {
                s
            } else {
                last
            };
            let end = if e < last {
                e
            } else {
                last
            };
            spec_resolve(Some(range_header_text(s, e)), len) == (if start > end {
                RangeResolution::NotSatisfiable
            } else {
                RangeResolution::Partial { start, end }
            })
        }),
{
    reveal_strlit("bytes=");
    reveal_strlit("-");
    let a = dec_chars(s as nat);
    let b = dec_chars(e as nat);
    let last = (len - 1) as u64;
    lemma_dec_chars_digits(s as nat);
    lemma_dec_chars_digits(e as nat);
    lemma_parse_of_dec_chars(s, 0);
    lemma_parse_of_dec_chars(e, last);
    let h = range_header_text(s, e);
    assert(h.subrange(0, 6) =~= "bytes="@);
    assert(is_range_attempt(Some(h)));
    let rest = h.skip(6);
    assert(rest =~= a + "-"@ + b);
    let d = a.len() as int;
    assert(rest[d] == '-');
    assert forall|j: int| 0 <= j < d implies rest[j] != '-' by {
        assert(rest[j] == a[j]);
        assert(is_dec_digit(a[j]));
    }
    lemma_first_index_of_witness(rest, '-', d);
    assert(rest.take(d) =~= a);
    let tail = rest.skip(d + 1);
    assert(tail =~= b);
    assert forall|j: int| 0 <= j < tail.len() implies tail[j] != '-' by {
        assert(tail[j] == b[j]);
        assert(is_dec_digit(b[j]));
    }
    lemma_first_index_of_none(tail, '-');
    assert(tail.len() >= 1);
}

/// A header `bytes=<s>-` resolves to the interval from the clamped start
/// through the file's final byte, and is always satisfiable.
pub proof fn lemma_resolve_open_range(s: u64, len: u64)
    requires
        len >= 1,
    ensures
        ({
            let last = (len - 1) as u64;
            let start = if s < last {
                s
            } else {
                last
            };
            spec_resolve(Some(open_range_header_text(s)), len) == (RangeResolution::Partial {
                start,
                end: last,
            })
        }),
{
    reveal_strlit("bytes=");
    reveal_strlit("-");
    let a = dec_chars(s as nat);
    lemma_dec_chars_digits(s as nat);
    lemma_parse_of_dec_chars(s, 0);
    let h = open_range_header_text(s);
    assert(h.subrange(0, 6) =~= "bytes="@);
    assert(is_range_attempt(Some(h)));
    let rest = h.skip(6);
    assert(rest =~= a + "-"@);
    let d = a.len() as int;
    assert(rest[d] == '-');
    assert forall|j: int| 0 <= j < d implies rest[j] != '-' by {
        assert(rest[j] == a[j]);
        assert(is_dec_digit(a[j]));
    }
    lemma_first_index_of_witness(rest, '-', d);
    assert(rest.take(d) =~= a);
    let tail = rest.skip(d + 1);
    assert(tail =~= Seq::<char>::empty());
    assert(first_index_of(tail, '-') is None);
}

/// Every satisfiable requested range is served exactly: for `0 <= s <= e < L`
/// a request `bytes=<s>-<e>` gets status 206, a `Content-Length` of
/// `e - s + 1`, and precisely the file's bytes at `[s, e]` as the body.
pub proof fn lemma_satisfiable_range_served(
    r: HttpResponse,
    path: Seq<char>,
    content: Seq<u8>,
    s: u64,
    e: u64,
)
    requires
        content.len() <= u64::MAX,
        s <= e < content.len(),
        response_models(r, path, content, Some(range_header_text(s, e))),
    ensures
        r.status == 206,
        r.body@ == content.subrange(s as int, e as int + 1),
        r.headers_model() == partial_headers(spec_mime(path), s, e, content.len() as u64),
        r.headers_model()[2] == ("Content-Length"@, spec_dec((e - s + 1) as u64)),
{
    let len = content.len() as u64;
    lemma_resolve_two_numbers(s, e, len);
}

/// A request `bytes=0-` is served as partial content that is the whole file:
/// status 206, the body equal to all of the file, and the interval ending at
/// `L - 1`.
pub proof fn lemma_open_range_from_zero(r: HttpResponse, path: Seq<char>, content: Seq<u8>)
    requires
        1 <= content.len() <= u64::MAX,
        response_models(r, path, content, Some(open_range_header_text(0))),
    ensures
        r.status == 206,
        r.body@ == content,
        r.headers_model() == partial_headers(
            spec_mime(path),
            0,
            (content.len() - 1) as u64,
            content.len() as u64,
        ),
{
    let len = content.len() as u64;
    lemma_resolve_open_range(0, len);
    assert(content.subrange(0, len as int) =~= content);
}

/// Without a range header the whole file is served: status 200, a
/// `Content-Length` of `L`, and the entire file as the body.
pub proof fn lemma_whole_file_without_header(r: HttpResponse, path: Seq<char>, content: Seq<u8>)
    requires
        content.len() <= u64::MAX,
        response_models(r, path, content, None),
    ensures
        r.status == 200,
        r.body@ == content,
        r.headers_model() == full_headers(spec_mime(path), content.len() as u64),
        r.headers_model()[2] == ("Content-Length"@, spec_dec(content.len() as u64)),
{
}

/// A start at or past the end of the file clamps both bounds to `L - 1`:
/// the request resolves to the single-byte interval `[L - 1, L - 1]` and is
/// served as partial content, not rejected.
pub proof fn lemma_start_beyond_eof_clamps(
    r: HttpResponse,
    path: Seq<char>,
    content: Seq<u8>,
    s: u64,
)
    requires
        1 <= content.len() <= u64::MAX,
        s >= content.len(),
        response_models(r, path, content, Some(open_range_header_text(s))),
    ensures
        r.status == 206,
        r.body@ == content.subrange(content.len() - 1, content.len() as int),
        r.headers_model() == partial_headers(
            spec_mime(path),
            (content.len() - 1) as u64,
            (content.len() - 1) as u64,
            content.len() as u64,
        ),
{
    let len = content.len() as u64;
    lemma_resolve_open_range(s, len);
}

/// A range whose start exceeds its end after clamping is not satisfiable:
/// for `e < s < L` a request `bytes=<s>-<e>` gets status 416, a
/// `Content-Range` of `bytes */L`, and an empty body.
pub proof fn lemma_reversed_range_not_satisfiable(
    r: HttpResponse,
    path: Seq<char>,
    content: Seq<u8>,
    s: u64,
    e: u64,
)
    requires
        content.len() <= u64::MAX,
        e < s < content.len(),
        response_models(r, path, content, Some(range_header_text(s, e))),
    ensures
        r.status == 416,
        r.headers_model() == unsat_headers(content.len() as u64),
        r.body@ == Seq::<u8>::empty(),
{
    let len = content.len() as u64;
    lemma_resolve_two_numbers(s, e, len);
}

/// A header that does not attempt a byte range — anything not starting with
/// `bytes=` — is treated identically to an absent header: no error is raised
/// and the two responses agree byte for byte.
pub proof fn lemma_malformed_header_treated_as_absent(
    r1: HttpResponse,
    r2: HttpResponse,
    path: Seq<char>,
    content: Seq<u8>,
    h: Seq<char>,
)
    requires
        !is_range_attempt(Some(h)),
        response_models(r1, path, content, Some(h)),
        response_models(r2, path, content, None),
    ensures
        r1.status == r2.status,
        r1.headers_model() == r2.headers_model(),
        r1.body@ == r2.body@,
{
}

/// The same request against unchanged content is answered identically: any
/// two responses owed for one path, content and header agree in status,
/// headers and body, byte for byte.
pub proof fn lemma_same_request_same_response(
    r1: HttpResponse,
    r2: HttpResponse,
    path: Seq<char>,
    content: Seq<u8>,
    h: Option<Seq<char>>,
)
    requires
        response_models(r1, path, content, h),
        response_models(r2, path, content, h),
    ensures
        r1.status == r2.status,
        r1.headers_model() == r2.headers_model(),
        r1.body@ == r2.body@,
{
}

} // verus!
