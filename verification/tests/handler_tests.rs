use frameflow::handler::{plan_serve, respond_from_bytes, FileProbe, ServePlan};
use frameflow::response::{io_error_response, not_found_response, HttpResponse};

fn header_value(r: &HttpResponse, name: &str) -> Option<String> {
    for (n, v) in r.headers.iter() {
        if n == name {
            return Some(v.clone());
        }
    }
    None
}

fn sample_content() -> Vec<u8> {
    (0u8..10).collect()
}

#[test]
fn satisfiable_range_served_exactly() {
    let content = sample_content();
    let r = respond_from_bytes("clip.mp4", &content, Some("bytes=2-5"));
    assert_eq!(r.status, 206);
    assert_eq!(r.body, vec![2u8, 3, 4, 5]);
    assert_eq!(header_value(&r, "Content-Range").unwrap(), "bytes 2-5/10");
    assert_eq!(header_value(&r, "Content-Length").unwrap(), "4");
    assert_eq!(header_value(&r, "Content-Type").unwrap(), "video/mp4");
    assert_eq!(header_value(&r, "Accept-Ranges").unwrap(), "bytes");
    assert_eq!(header_value(&r, "Access-Control-Allow-Origin").unwrap(), "*");
}

#[test]
fn open_range_from_zero_serves_whole_file_as_partial() {
    let content = sample_content();
    let r = respond_from_bytes("clip.mp4", &content, Some("bytes=0-"));
    assert_eq!(r.status, 206);
    assert_eq!(r.body, content);
    assert_eq!(header_value(&r, "Content-Range").unwrap(), "bytes 0-9/10");
    assert_eq!(header_value(&r, "Content-Length").unwrap(), "10");
}

#[test]
fn absent_header_serves_whole_file() {
    let content = b"hello world".to_vec();
    let r = respond_from_bytes("song.mp3", &content, None);
    assert_eq!(r.status, 200);
    assert_eq!(r.body, content);
    assert_eq!(header_value(&r, "Content-Length").unwrap(), "11");
    assert_eq!(header_value(&r, "Content-Type").unwrap(), "audio/mpeg");
    assert_eq!(header_value(&r, "Accept-Ranges").unwrap(), "bytes");
    assert_eq!(header_value(&r, "Access-Control-Allow-Origin").unwrap(), "*");
    assert_eq!(header_value(&r, "Content-Range"), None);
}

#[test]
fn start_beyond_eof_serves_final_byte() {
    let content = sample_content();
    let r = respond_from_bytes("clip.mp4", &content, Some("bytes=100-"));
    assert_eq!(r.status, 206);
    assert_eq!(r.body, vec![9u8]);
    assert_eq!(header_value(&r, "Content-Range").unwrap(), "bytes 9-9/10");
    assert_eq!(header_value(&r, "Content-Length").unwrap(), "1");
}

#[test]
fn reversed_range_gets_416() {
    let content = sample_content();
    let r = respond_from_bytes("clip.mp4", &content, Some("bytes=7-5"));
    assert_eq!(r.status, 416);
    assert!(r.body.is_empty());
    assert_eq!(header_value(&r, "Content-Range").unwrap(), "bytes */10");
    assert_eq!(r.headers.len(), 1);
}

#[test]
fn same_request_twice_is_byte_identical() {
    let content = sample_content();
    let r1 = respond_from_bytes("clip.mp4", &content, Some("bytes=3-8"));
    let r2 = respond_from_bytes("clip.mp4", &content, Some("bytes=3-8"));
    assert_eq!(r1.status, r2.status);
    assert_eq!(r1.headers, r2.headers);
    assert_eq!(r1.body, r2.body);
}

#[test]
fn distinct_ranges_do_not_interfere() {
    let content: Vec<u8> = (0u8..100).collect();
    let ranges = [(0u64, 9u64), (10, 19), (20, 49), (50, 99), (5, 95)];
    let responses: Vec<_> = ranges
        .iter()
        .map(|&(s, e)| {
            let h = format!("bytes={}-{}", s, e);
            respond_from_bytes("big.wav", &content, Some(&h))
        })
        .collect();
    for (&(s, e), r) in ranges.iter().zip(responses.iter()) {
        assert_eq!(r.status, 206);
        assert_eq!(r.body, content[s as usize..=(e as usize)].to_vec());
        assert_eq!(
            header_value(r, "Content-Range").unwrap(),
            format!("bytes {}-{}/100", s, e)
        );
    }
}

#[test]
fn missing_file_is_not_found_whatever_the_header() {
    assert_eq!(plan_serve(FileProbe::Missing, None), ServePlan::SendNotFound);
    assert_eq!(plan_serve(FileProbe::Missing, Some("bytes=0-5")), ServePlan::SendNotFound);
    assert_eq!(plan_serve(FileProbe::Missing, Some("nonsense")), ServePlan::SendNotFound);
}

#[test]
fn metadata_failure_becomes_an_error_plan() {
    let p = plan_serve(FileProbe::MetaError("boom".to_string()), Some("bytes=0-"));
    assert_eq!(p, ServePlan::SendError("boom".to_string()));
}

#[test]
fn present_file_plans_follow_the_resolution() {
    assert_eq!(
        plan_serve(FileProbe::Present { len: 10 }, None),
        ServePlan::ReadWhole { len: 10 }
    );
    assert_eq!(
        plan_serve(FileProbe::Present { len: 10 }, Some("bytes=2-4")),
        ServePlan::ReadSlice { start: 2, end: 4, len: 10 }
    );
    assert_eq!(
        plan_serve(FileProbe::Present { len: 10 }, Some("bytes=8-3")),
        ServePlan::SendUnsatisfiable { len: 10 }
    );
}

#[test]
fn not_found_response_is_404_with_plain_text() {
    let r = not_found_response();
    assert_eq!(r.status, 404);
    assert_eq!(r.body, b"File not found".to_vec());
    assert!(r.headers.is_empty());
}

#[test]
fn io_error_response_carries_the_message() {
    let r = io_error_response("permission denied");
    assert_eq!(r.status, 500);
    assert_eq!(r.body, b"permission denied".to_vec());
    assert!(r.headers.is_empty());
}

#[test]
fn empty_file_without_header_serves_empty_body() {
    let content: Vec<u8> = Vec::new();
    let r = respond_from_bytes("empty.png", &content, None);
    assert_eq!(r.status, 200);
    assert!(r.body.is_empty());
    assert_eq!(header_value(&r, "Content-Length").unwrap(), "0");
}
