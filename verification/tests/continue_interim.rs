use tophat::server::accept;

const NOW: u64 = 1445412480;

const CONTINUE: &str = "HTTP/1.1 100 Continue\r\n\r\n";

#[test]
fn test_handle_100_continue_does_nothing_with_no_header() {
    let (out, res, _transcript) = accept(
        "GET /foo/bar HTTP/1.1\r\nHost: example.org\r\n\r\n".as_bytes(),
        NOW,
        |_req, resp_wtr| resp_wtr.send(),
    );
    res.unwrap();
    let text = String::from_utf8(out).unwrap();
    assert!(!text.contains(CONTINUE));
}

#[test]
fn test_handle_100_continue_sends_header_if_expects_is_right() {
    let (out, res, _transcript) = accept(
        "GET /foo/bar HTTP/1.1\r\nHost: example.org\r\nExpect: 100-continue\r\n\r\n".as_bytes(),
        NOW,
        |_req, resp_wtr| resp_wtr.send(),
    );
    res.unwrap();
    let text = String::from_utf8(out).unwrap();
    assert!(text.starts_with(CONTINUE));
}

#[test]
fn test_handle_100_continue_sends_header_if_expects_is_wrong() {
    let (out, res, _transcript) = accept(
        "GET /foo/bar HTTP/1.1\r\nHost: example.org\r\nExpect: 111-wrong\r\n\r\n".as_bytes(),
        NOW,
        |_req, resp_wtr| resp_wtr.send(),
    );
    res.unwrap();
    let text = String::from_utf8(out).unwrap();
    assert!(!text.contains(CONTINUE));
}
