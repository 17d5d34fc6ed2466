use led_httpd::request::{
    body_slice, content_length, examine, judge, HeadStatus, Header, Request, RequestHead, Verdict,
    CONTENT_LENGTH, MAX_HEADERS, POST, ROOT,
};

fn header(name: &str, value: &str) -> Header {
    Header { name: name.as_bytes().to_vec(), value: value.as_bytes().to_vec() }
}

fn head(length: usize, method: &str, path: &str, headers: Vec<Header>) -> HeadStatus {
    HeadStatus::Complete(RequestHead {
        length,
        method: Some(method.as_bytes().to_vec()),
        path: Some(path.as_bytes().to_vec()),
        headers,
    })
}

fn complete(found: bool, post: bool, body_start: usize, body_length: usize) -> Verdict {
    Verdict::Complete(Request { found, post, body_start, body_length })
}

#[test]
fn constants_spell_the_protocol_words() {
    assert_eq!(&CONTENT_LENGTH[..], b"Content-Length");
    assert_eq!(&POST[..], b"POST");
    assert_eq!(&ROOT[..], b"/");
    assert_eq!(MAX_HEADERS, 64);
}

#[test]
fn content_length_defaults_to_zero() {
    assert_eq!(content_length(&vec![]), 0);
    assert_eq!(content_length(&vec![header("Host", "device")]), 0);
}

#[test]
fn content_length_reads_the_header() {
    assert_eq!(content_length(&vec![header("Content-Length", "6")]), 6);
    assert_eq!(
        content_length(&vec![header("Host", "device"), header("Content-Length", "123"), header("Accept", "*/*")]),
        123
    );
}

#[test]
fn content_length_name_is_matched_exactly() {
    assert_eq!(content_length(&vec![header("content-length", "6")]), 0);
    assert_eq!(content_length(&vec![header("Content-length", "6")]), 0);
    assert_eq!(content_length(&vec![header("Content-Length ", "6")]), 0);
    assert_eq!(content_length(&vec![header("X-Content-Length", "6")]), 0);
}

#[test]
fn content_length_without_a_number_is_skipped() {
    assert_eq!(content_length(&vec![header("Content-Length", "six")]), 0);
    assert_eq!(content_length(&vec![header("Content-Length", "")]), 0);
    assert_eq!(content_length(&vec![header("Content-Length", "-6")]), 0);
    assert_eq!(content_length(&vec![header("Content-Length", "6, 6")]), 0);
}

#[test]
fn last_content_length_with_a_number_wins() {
    assert_eq!(
        content_length(&vec![header("Content-Length", "6"), header("Content-Length", "7")]),
        7
    );
    assert_eq!(
        content_length(&vec![header("Content-Length", "6"), header("Content-Length", "seven")]),
        6
    );
    assert_eq!(
        content_length(&vec![header("Content-Length", "six"), header("Content-Length", "7"), header("Content-Length", "")]),
        7
    );
}

#[test]
fn judge_partial_head_is_incomplete() {
    assert_eq!(judge(0, &HeadStatus::Partial), Verdict::Incomplete);
    assert_eq!(judge(700, &HeadStatus::Partial), Verdict::Incomplete);
}

#[test]
fn judge_malformed_head_is_malformed() {
    assert_eq!(judge(0, &HeadStatus::Malformed), Verdict::Malformed);
    assert_eq!(judge(12, &HeadStatus::Malformed), Verdict::Malformed);
}

#[test]
fn judge_waits_for_the_whole_body() {
    let parsed = head(40, "POST", "/", vec![header("Content-Length", "6")]);
    assert_eq!(judge(40, &parsed), Verdict::Incomplete);
    assert_eq!(judge(45, &parsed), Verdict::Incomplete);
    assert_eq!(judge(46, &parsed), complete(true, true, 40, 6));
    assert_eq!(judge(47, &parsed), complete(true, true, 40, 6));
}

#[test]
fn judge_without_body_is_complete_at_the_head() {
    let parsed = head(18, "GET", "/", vec![]);
    assert_eq!(judge(18, &parsed), complete(true, false, 18, 0));
}

#[test]
fn judge_tells_path_and_method() {
    assert_eq!(judge(20, &head(20, "GET", "/index.html", vec![])), complete(false, false, 20, 0));
    assert_eq!(judge(20, &head(20, "POST", "/led", vec![])), complete(false, true, 20, 0));
    assert_eq!(judge(20, &head(20, "post", "/", vec![])), complete(true, false, 20, 0));
    assert_eq!(judge(20, &head(20, "PUT", "/", vec![])), complete(true, false, 20, 0));
    assert_eq!(judge(20, &head(20, "POST", "//", vec![])), complete(false, true, 20, 0));
    assert_eq!(judge(20, &head(20, "POST", "", vec![])), complete(false, true, 20, 0));
}

#[test]
fn judge_missing_method_or_path_matches_nothing() {
    let parsed = HeadStatus::Complete(RequestHead { length: 10, method: None, path: None, headers: vec![] });
    assert_eq!(judge(10, &parsed), complete(false, false, 10, 0));
}

#[test]
fn judge_huge_declared_length_never_completes() {
    let largest = usize::MAX.to_string();
    let parsed = head(40, "POST", "/", vec![header("Content-Length", &largest)]);
    assert_eq!(judge(1024, &parsed), Verdict::Incomplete);
    assert_eq!(judge(usize::MAX, &parsed), Verdict::Incomplete);
}

#[test]
fn examine_empty_input_is_incomplete() {
    assert_eq!(examine(b""), Verdict::Incomplete);
}

#[test]
fn examine_get_root() {
    let bytes = b"GET / HTTP/1.1\r\nHost: device\r\n\r\n";
    assert_eq!(examine(bytes), complete(true, false, bytes.len(), 0));
}

#[test]
fn examine_get_other_path() {
    let bytes = b"GET /favicon.ico HTTP/1.1\r\n\r\n";
    assert_eq!(examine(bytes), complete(false, false, bytes.len(), 0));
}

#[test]
fn examine_post_with_body() {
    let head = b"POST / HTTP/1.1\r\nContent-Length: 6\r\n\r\n";
    let mut bytes = head.to_vec();
    bytes.extend_from_slice(b"led=on");
    let verdict = examine(&bytes);
    assert_eq!(verdict, complete(true, true, head.len(), 6));
    match verdict {
        Verdict::Complete(request) => assert_eq!(body_slice(&bytes, request), b"led=on"),
        _ => unreachable!(),
    }
}

#[test]
fn examine_every_proper_prefix_is_incomplete() {
    let mut bytes = b"POST / HTTP/1.1\r\nHost: device\r\nContent-Length: 7\r\n\r\n".to_vec();
    bytes.extend_from_slice(b"led=off");
    for cut in 0..bytes.len() {
        assert_eq!(examine(&bytes[..cut]), Verdict::Incomplete, "prefix of {} bytes", cut);
    }
    assert!(matches!(examine(&bytes), Verdict::Complete(_)));
}

#[test]
fn examine_body_beyond_declared_length_is_ignored() {
    let head = b"POST / HTTP/1.1\r\nContent-Length: 6\r\n\r\n";
    let mut bytes = head.to_vec();
    bytes.extend_from_slice(b"led=on&more");
    let verdict = examine(&bytes);
    assert_eq!(verdict, complete(true, true, head.len(), 6));
    match verdict {
        Verdict::Complete(request) => assert_eq!(body_slice(&bytes, request), b"led=on"),
        _ => unreachable!(),
    }
}

#[test]
fn examine_duplicate_content_length_last_wins() {
    let head = b"POST / HTTP/1.1\r\nContent-Length: 2\r\nContent-Length: 6\r\n\r\n";
    let mut bytes = head.to_vec();
    bytes.extend_from_slice(b"led=");
    assert_eq!(examine(&bytes), Verdict::Incomplete);
    bytes.extend_from_slice(b"on");
    assert_eq!(examine(&bytes), complete(true, true, head.len(), 6));
}

#[test]
fn examine_header_value_is_trimmed_by_the_parser() {
    let head = b"POST / HTTP/1.1\r\nContent-Length:   6  \r\n\r\n";
    let mut bytes = head.to_vec();
    bytes.extend_from_slice(b"led=on");
    assert_eq!(examine(&bytes), complete(true, true, head.len(), 6));
}

#[test]
fn examine_malformed_requests() {
    assert_eq!(examine(b"\x00\x01\x02"), Verdict::Malformed);
    assert_eq!(examine(b"GET / HTTP/9.9\r\n\r\n"), Verdict::Malformed);
    assert_eq!(examine(b"GET / HTTP/1.1\r\nBad Header\r\n\r\n"), Verdict::Malformed);
    assert_eq!(examine(b"GET  HTTP/1.1\r\n\r\n"), Verdict::Malformed);
}

#[test]
fn examine_request_line_without_version_is_malformed() {
    assert_eq!(examine(b"POST / \r\nContent-Length: 6\r\n\r\n"), Verdict::Malformed);
    assert_eq!(examine(b"POST / \r\nContent-Length: 6\r\n\r\nled=on"), Verdict::Malformed);
}

#[test]
fn examine_header_limit() {
    let mut bytes = b"GET / HTTP/1.1\r\n".to_vec();
    for index in 0..MAX_HEADERS {
        bytes.extend_from_slice(format!("X-{}: v\r\n", index).as_bytes());
    }
    let mut within = bytes.clone();
    within.extend_from_slice(b"\r\n");
    assert_eq!(examine(&within), complete(true, false, within.len(), 0));
    let mut beyond = bytes.clone();
    beyond.extend_from_slice(b"X-more: v\r\n\r\n");
    assert_eq!(examine(&beyond), Verdict::Malformed);
}

#[test]
fn body_slice_takes_the_declared_range() {
    let request = Request { found: true, post: true, body_start: 3, body_length: 4 };
    assert_eq!(body_slice(b"abcdefghij", request), b"defg");
    let empty = Request { found: true, post: true, body_start: 10, body_length: 0 };
    assert_eq!(body_slice(b"abcdefghij", empty), b"");
}
