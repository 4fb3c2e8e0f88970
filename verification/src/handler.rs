//! The request handler: decide what to do from the filesystem probe and the
//! range header, and assemble the exact response for content that is in
//! memory. The caller performs the filesystem work and hands its results in
//! as plain values.

use vstd::prelude::*;
use crate::mime::{mime_for_path, spec_mime};
use crate::range::{
    RangeResolution, header_view, is_range_attempt, lemma_resolve_in_bounds, resolve_range,
    spec_resolve,
};
use crate::response::{
    HttpResponse, copy_range, full_headers, full_response, partial_headers, partial_response,
    unsat_headers, unsatisfiable_response,
};

verus! {

/// What the filesystem said of the decoded path.
#[derive(Clone, Debug, PartialEq, Eq)]
pub enum FileProbe {
    /// No file of that name exists.
    Missing,
    /// The metadata lookup failed with this message.
    MetaError(String),
    /// The file exists and has this length in bytes.
    Present { len: u64 },
}

/// What the handler decides to do next; the reads themselves are left to the
/// caller.
#[derive(Clone, Debug, PartialEq, Eq)]
pub enum ServePlan {
    /// Answer with the not-found response.
    SendNotFound,
    /// Answer with the error response carrying this message.
    SendError(String),
    /// Read the whole file and answer with the whole-file response.
    ReadWhole { len: u64 },
    /// Seek to `start` and read through `end`, then answer with the
    /// partial-content response.
    ReadSlice { start: u64, end: u64, len: u64 },
    /// Answer with the not-satisfiable response.
    SendUnsatisfiable { len: u64 },
}

/// Decide the next step from the filesystem probe and the range header. A
/// missing file is reported as not found whatever the header says, and a
/// failed metadata lookup as an error; otherwise the header is resolved
/// against the file's length.
pub fn plan_serve(probe: FileProbe, header: Option<&str>) -> (p: ServePlan)
    requires
        match probe {
            FileProbe::Present { len } => is_range_attempt(header_view(header)) ==> len >= 1,
            _ => true,
        },
    ensures
        match probe {
            FileProbe::Missing => p == ServePlan::SendNotFound,
            FileProbe::MetaError(m) => p == ServePlan::SendError(m),
            FileProbe::Present { len } => match spec_resolve(header_view(header), len) {
                RangeResolution::Whole => p == (ServePlan::ReadWhole { len }),
                RangeResolution::Partial { start, end } => p == (ServePlan::ReadSlice {
                    start,
                    end,
                    len,
                }),
                RangeResolution::NotSatisfiable => p == (ServePlan::SendUnsatisfiable { len }),
            },
        },
{
    match probe {
        FileProbe::Missing => ServePlan::SendNotFound,
        FileProbe::MetaError(m) => ServePlan::SendError(m),
        FileProbe::Present { len } => match resolve_range(header, len) {
            RangeResolution::Whole => ServePlan::ReadWhole { len },
            RangeResolution::Partial { start, end } => ServePlan::ReadSlice { start, end, len },
            RangeResolution::NotSatisfiable => ServePlan::SendUnsatisfiable { len },
        },
    }
}

/// The exact response owed for `content` served as the file at `path` under
/// the given range header: status, headers and body are all pinned.
pub open spec fn response_models(
    r: HttpResponse,
    path: Seq<char>,
    content: Seq<u8>,
    h: Option<Seq<char>>,
) -> bool {
    let len = content.len() as u64;
    match spec_resolve(h, len) {
        RangeResolution::Whole => {
            &&& r.status == 200
            &&& r.headers_model() == full_headers(spec_mime(path), len)
            &&& r.body@ == content
        },
        RangeResolution::Partial { start, end } => {
            &&& r.status == 206
            &&& r.headers_model() == partial_headers(spec_mime(path), start, end, len)
            &&& r.body@ == content.subrange(start as int, end as int + 1)
        },
        RangeResolution::NotSatisfiable => {
            &&& r.status == 416
            &&& r.headers_model() == unsat_headers(len)
            &&& r.body@ == Seq::<u8>::empty()
        },
    }
}

/// Serve content that is already in memory: resolve the range header against
/// its length and assemble the whole-file, partial-content or not-satisfiable
/// response, exactly as the file at `path` would be served.
pub fn respond_from_bytes(path: &str, content: &Vec<u8>, header: Option<&str>) -> (r: HttpResponse)
    requires
        is_range_attempt(header_view(header)) ==> content@.len() >= 1,
    ensures
        response_models(r, path@, content@, header_view(header)),
{
    let len = content.len() as u64;
    let mime = mime_for_path(path);
    proof {
        lemma_resolve_in_bounds(header_view(header), len);
    }
    match resolve_range(header, len) {
        RangeResolution::Whole => {
            let body = if content.len() == 0 {
                Vec::new()
            } else {
                copy_range(content, 0, len - 1)
            };
            proof {
                if content@.len() > 0 {
                    assert(content@.subrange(0, len as int) =~= content@);
                } else {
                    assert(body@ =~= content@);
                }
            }
            full_response(mime, len, body)
        },
        RangeResolution::Partial { start, end } => {
            let body = copy_range(content, start, end);
            partial_response(mime, start, end, len, body)
        },
        RangeResolution::NotSatisfiable => unsatisfiable_response(len),
    }
}

} // verus!
