use tophat::body::Body;
use tophat::request::{Request, Version};
use tophat::server::accept;
use tophat::server::error::ServerError;
use tophat::server::glitch::Glitch;
use tophat::server::response_writer::{ResponseWriter, ResponseWritten};

const RESP_200: &str = "HTTP/1.1 200 OK\r\ncontent-length: 0\r\n\r\n";
const RESP_400: &str = "HTTP/1.1 400 Bad Request\r\ncontent-length: 0\r\n\r\n";

const NOW: u64 = 1445412480;

fn remove_date(b: &[u8]) -> Vec<u8> {
    let s = std::str::from_utf8(b).unwrap();
    if let Some(i) = s.find("date: ") {
        let eol = s[i + 6..].find("\r\n").expect("missing date eol");
        let mut res = Vec::new();
        res.extend_from_slice(&b[..i]);
        res.extend_from_slice(&b[i + 6 + eol + 2..]);
        res
    } else {
        b.to_vec()
    }
}

fn run<F: Fn(Request, ResponseWriter) -> Result<ResponseWritten, Glitch>>(
    input: &str,
    endpoint: F,
) -> (Vec<u8>, Result<(), ServerError>) {
    let (out, res, _transcript) = accept(input.as_bytes(), NOW, endpoint);
    (out, res)
}

fn check<F: Fn(Request, ResponseWriter) -> Result<ResponseWritten, Glitch>>(
    input: &str,
    expected: &str,
    endpoint: F,
) {
    let (out, res) = run(input, endpoint);
    res.unwrap();
    assert_eq!(
        String::from_utf8(remove_date(&out)).unwrap(),
        expected.to_owned()
    );
}

#[test]
fn server_basic_test_request_empty_body() {
    check(
        "GET /foo/bar HTTP/1.1\r\nHost: example.org\r\n\r\n",
        RESP_200,
        |_req, resp_wtr| {
            // The exchange type-checks only when the token is returned.
            let done = resp_wtr.send().unwrap();
            Ok(done)
        },
    );
}

#[test]
fn server_basic_test_request_basic_with_body_and_query() {
    check(
        "GET /foo/bar?one=two HTTP/1.1\r\nHost: example.org\r\nContent-Length: 6\r\n\r\ntophat",
        "HTTP/1.1 200 OK\r\ncontent-length: 12\r\n\r\nHello tophat",
        |req, mut resp_wtr| {
            assert_eq!(req.uri().path().as_slice(), b"/foo/bar");
            assert_eq!(req.uri().query().map(|q| q.as_slice()), Some(&b"one=two"[..]));
            assert_eq!(req.version(), Version::Http11);
            assert_eq!(req.method().as_slice(), b"GET");
            assert_eq!(
                req.header(b"content-length").map(|v| v.as_slice()),
                Some(&b"6"[..])
            );
            assert_eq!(
                req.header(b"host").map(|v| v.as_slice()),
                Some(&b"example.org"[..])
            );

            let body = req.into_body().into_string().unwrap();
            let res_body = format!("Hello {}", body);

            resp_wtr.set_body(Body::from_text(res_body));
            let done = resp_wtr.send().unwrap();
            Ok(done)
        },
    );
}

#[test]
fn server_basic_test_request_missing_method() {
    check(
        "/foo/bar HTTP/1.1\r\nHost: example.org\r\nContent-Length: 0\r\n\r\n",
        RESP_400,
        |_req, resp_wtr| resp_wtr.send(),
    );
}

#[test]
fn server_basic_test_request_missing_host() {
    check(
        "GET /foo/bar HTTP/1.1\r\nContent-Length: 0\r\n\r\n",
        RESP_400,
        |_req, resp_wtr| resp_wtr.send(),
    );
}

#[test]
fn server_basic_test_request_path() {
    // good uri path
    check(
        "GET /foo/bar HTTP/1.1\r\nHost: example.org\r\nContent-Length: 0\r\n\r\n",
        RESP_200,
        |req, resp_wtr| {
            assert_eq!(req.uri().raw().as_slice(), b"/foo/bar");
            assert_eq!(req.uri().path().as_slice(), b"/foo/bar");
            resp_wtr.send()
        },
    );

    // good absolute uri, ignores host
    check(
        "GET https://wunder.org/foo/bar HTTP/1.1\r\nHost: example.org\r\nContent-Length: 0\r\n\r\n",
        RESP_200,
        |req, resp_wtr| {
            assert_eq!(req.uri().raw().as_slice(), b"https://wunder.org/foo/bar");
            assert_eq!(req.uri().path().as_slice(), b"/foo/bar");
            resp_wtr.send()
        },
    );

    // bad uri path
    check(
        "GET foo/bar HTTP/1.1\r\nHost: example.org\r\nContent-Length: 0\r\n\r\n",
        RESP_400,
        |_req, resp_wtr| resp_wtr.send(),
    );
}

#[test]
fn server_basic_test_request_version() {
    // malformed version
    check(
        "GET /foo/bar HTP/1.1\r\nHost: example.org\r\nContent-Length: 0\r\n\r\n",
        RESP_400,
        |_req, resp_wtr| resp_wtr.send(),
    );

    // version 1.0 not supported
    check(
        "GET /foo/bar HTTP/1.0\r\nHost: example.org\r\nContent-Length: 0\r\n\r\n",
        "HTTP/1.1 505 HTTP Version Not Supported\r\ncontent-length: 0\r\n\r\n",
        |_req, resp_wtr| resp_wtr.send(),
    );
}

// sends message _and_ closes the connection
#[test]
fn test_transfer_encoding_unsupported() {
    let (out, res) = run(
        "GET /foo/bar HTTP/1.1\r\nHost: example.org\r\nContent-Length: 0\r\nTransfer-Encoding: gzip\r\n\r\n",
        |_req, resp_wtr| resp_wtr.send(),
    );
    match res {
        Ok(_) => panic!(),
        Err(err) => match err {
            ServerError::ConnectionClosedUnsupportedTransferEncoding => (),
            _ => panic!(),
        },
    }
    assert_eq!(
        String::from_utf8(remove_date(&out)).unwrap(),
        "HTTP/1.1 501 Not Implemented\r\ncontent-length: 0\r\n\r\n".to_owned()
    );
}

#[test]
fn server_basic_test_transfer_encoding_content_length() {
    check(
        "GET /foo/bar HTTP/1.1\r\nHost: example.org\r\nContent-Length: 0\r\nTransfer-Encoding: chunked\r\n\r\n",
        RESP_400,
        |_req, resp_wtr| resp_wtr.send(),
    );
}

#[test]
fn server_basic_test_dont_allow_user_set_body_type_header() {
    // Even if the user sets content-length or transfer-encoding, the
    // encoder owns the framing and ignores them.
    check(
        "GET /foo/bar HTTP/1.1\r\nHost: example.org\r\nContent-Length: 0\r\n\r\n",
        RESP_200,
        |_req, mut resp_wtr| {
            resp_wtr.append_header(b"transfer-encoding", b"chunked".to_vec());
            resp_wtr.send()
        },
    );

    check(
        "GET /foo/bar HTTP/1.1\r\nHost: example.org\r\nContent-Length: 0\r\n\r\n",
        "HTTP/1.1 200 OK\r\ntransfer-encoding: chunked\r\n\r\n0\r\n\r\n",
        |_req, mut resp_wtr| {
            resp_wtr.set_body(Body::from_parts(Vec::new(), None));
            resp_wtr.append_header(b"content-length", b"20".to_vec());
            resp_wtr.send()
        },
    );
}

#[test]
fn server_basic_test_response_date() {
    // the date isn't doubled when the response already carries one,
    // and the set date passes through
    let (out, res) = run(
        "GET /foo/bar HTTP/1.1\r\nHost: example.org\r\nContent-Length: 0\r\n\r\n",
        |_req, mut resp_wtr| {
            resp_wtr.append_header(b"date", b"Wed, 21 Oct 2015 07:28:00 GMT".to_vec());
            resp_wtr.send()
        },
    );
    res.unwrap();
    let with_date = String::from_utf8(out.clone()).unwrap();
    assert!(with_date.contains("Wed, 21 Oct 2015 07:28:00 GMT"));
    assert_eq!(
        String::from_utf8(remove_date(&out)).unwrap(),
        RESP_200.to_owned()
    );
}

#[test]
fn server_basic_test_set_content_type_mime() {
    check(
        "GET /foo/bar HTTP/1.1\r\nHost: example.org\r\nContent-Length: 0\r\n\r\n",
        "HTTP/1.1 200 OK\r\ncontent-length: 0\r\ncontent-type: text/plain\r\n\r\n",
        |_req, mut resp_wtr| {
            resp_wtr.append_header(b"content-type", b"text/plain".to_vec());
            resp_wtr.send()
        },
    );
}

#[test]
fn server_basic_test_decode_transfer_encoding_chunked() {
    check(
        "GET /foo/bar HTTP/1.1\r\nHost: example.org\r\nTransfer-Encoding: chunked\r\n\r\n\
            7\r\n\
            Mozilla\r\n\
            9\r\n\
            Developer\r\n\
            7\r\n\
            Network\r\n\
            0\r\n\
            Expires: Wed, 21 Oct 2015 07:28:00 GMT\r\n\
            \r\n",
        RESP_200,
        |req, resp_wtr| {
            let (body, trailer) = req.into_body().into_string_with_trailer().unwrap();
            let trailer = trailer.unwrap().unwrap();

            assert_eq!(body, "MozillaDeveloperNetwork");
            assert_eq!(trailer.headers.len(), 1);
            assert_eq!(
                trailer.headers.get(b"Expires").map(|v| v.as_slice()),
                Some(&b"Wed, 21 Oct 2015 07:28:00 GMT"[..])
            );

            resp_wtr.send()
        },
    );

    // no trailer
    check(
        "GET /foo/bar HTTP/1.1\r\nHost: example.org\r\nTransfer-Encoding: chunked\r\n\r\n\
            7\r\n\
            Mozilla\r\n\
            9\r\n\
            Developer\r\n\
            7\r\n\
            Network\r\n\
            0\r\n\
            \r\n",
        RESP_200,
        |req, resp_wtr| {
            let (body, trailer) = req.into_body().into_string_with_trailer().unwrap();
            let trailer = trailer.unwrap().unwrap();

            assert_eq!(body, "MozillaDeveloperNetwork");
            assert!(trailer.headers.is_empty());

            resp_wtr.send()
        },
    );
}

#[test]
fn server_basic_test_encode_transfer_encoding_chunked() {
    // 13 is D in hexadecimal
    check(
        "GET /foo/bar HTTP/1.1\r\nHost: example.org\r\nContent-Length: 0\r\n\r\n",
        "HTTP/1.1 200 OK\r\ntransfer-encoding: chunked\r\n\r\nD\r\nHello tophat!\r\n0\r\n\r\n",
        |_req, mut resp_wtr| {
            resp_wtr.set_body(Body::from_parts(b"Hello tophat!".to_vec(), None));
            resp_wtr.send()
        },
    );
}

#[test]
fn mock_test_remove_date() {
    let input =
        b"HTTP/1.1 200 OK\r\ncontent-length: 0\r\ndate: Thu, 07 May 2020 15:54:21 GMT\r\n\r\n";
    let expected = b"HTTP/1.1 200 OK\r\ncontent-length: 0\r\n\r\n";

    assert_eq!(
        String::from_utf8(remove_date(input)),
        String::from_utf8(expected.to_vec())
    );
}
